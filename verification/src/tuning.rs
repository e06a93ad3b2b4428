//! The capture window and the oscillator tuning words.
//!
//! A channel is received when its frequency lies in the capture window around
//! the front-end's center frequency. Its oscillator then runs at the offset
//! from the center, which is programmed as a fraction of the sample rate.
//!
//! Both are computed in binary64: the center is rounded to binary64, and the
//! offset and the quotient by the sample rate are rounded after each
//! operation. The functions here are proved to give what rounding to the
//! nearest value, ties to even, gives after each operation. That floating-point
//! hardware rounds in this way is not proved; `tests/tuning.rs` compares the
//! results with it.

use crate::double::Double;
use crate::rounding::{
    is_scaled, lemma_between, lemma_nearest_at_least, lemma_nearest_at_most, lemma_nearest_exact,
    lemma_nearest_representable, lemma_ratio, lemma_scale_up, lemma_unit, nearest,
    nearest_magnitude, round_half_away, round_quotient, SIGNIFICAND_LIMIT,
};
use vstd::arithmetic::div_mod::{
    lemma_div_multiples_vanish_quotient, lemma_fundamental_div_mod,
    lemma_fundamental_div_mod_converse,
};
use vstd::arithmetic::power2::{
    lemma2_to64, lemma2_to64_rest, lemma_pow2_adds, lemma_pow2_pos, lemma_pow2_unfold, pow2,
};
use vstd::prelude::*;

verus! {

/// The center frequency as a binary64 value, in units of 2^-1074 Hz.
pub open spec fn center_value(center_hz: u64) -> int {
    nearest(center_hz * pow2(1074), 1)
}

/// The offset of a channel from the center, in units of 2^-1074 Hz.
pub open spec fn offset_value(freq_hz: Double, center_hz: u64) -> int {
    nearest(freq_hz.value() - center_value(center_hz), 1)
}

/// Whether a channel lies in the capture window: its offset from the center is
/// at least minus half the sample rate and below half the sample rate.
pub open spec fn in_window(freq_hz: Double, center_hz: u64, samp_rate: u32) -> bool {
    freq_hz.is_finite() && -(samp_rate * pow2(1073)) <= offset_value(freq_hz, center_hz)
        < samp_rate * pow2(1073)
}

/// The offset in cycles per sample, in units of 2^-1074.
pub open spec fn cycles_value(freq_hz: Double, center_hz: u64, samp_rate: u32) -> int {
    nearest(offset_value(freq_hz, center_hz), samp_rate as int)
}

/// Whether an oscillator can be tuned to a channel: the offset is at least
/// minus half a cycle per sample and below half a cycle per sample.
pub open spec fn tunable(freq_hz: Double, center_hz: u64, samp_rate: u32) -> bool {
    freq_hz.is_finite() && samp_rate > 0 && -pow2(1073) <= cycles_value(
        freq_hz,
        center_hz,
        samp_rate,
    ) < pow2(1073)
}

/// The tuning word of a channel: the offset in cycles per sample times 2^24,
/// rounded half away from zero, modulo 2^24.
pub open spec fn word_of(freq_hz: Double, center_hz: u64, samp_rate: u32) -> int {
    round_half_away(cycles_value(freq_hz, center_hz, samp_rate) * 0x100_0000, pow2(1074) as int)
        % 0x100_0000
}

/// A rounded offset: a signed magnitude in units of `2^(places - 1074)` Hz.
struct Offset {
    negative: bool,
    magnitude: u128,
    places: u64,
}

impl Offset {
    spec fn value(self) -> int {
        if self.negative {
            -(self.magnitude * pow2(self.places as nat))
        } else {
            self.magnitude * pow2(self.places as nat)
        }
    }
}

/// Two to the power of `k`.
fn power(k: u64) -> (p: u128)
    requires
        k <= 127,
    ensures
        p == pow2(k as nat),
        p > 0,
{
    let mut p: u128 = 1;
    let mut i: u64 = 0;
    proof {
        lemma2_to64();
    }
    while i < k
        invariant
            i <= k <= 127,
            p == pow2(i as nat),
        decreases k - i,
    {
        proof {
            lemma_pow2_unfold((i + 1) as nat);
            lemma_pow2_adds((i + 1) as nat, (127 - i - 1) as nat);
            lemma_pow2_pos((127 - i - 1) as nat);
            lemma_pow2_127();
            assert(pow2((i + 1) as nat) <= pow2(127)) by (nonlinear_arith)
                requires
                    pow2(127) == pow2((i + 1) as nat) * pow2((127 - i - 1) as nat),
                    pow2((127 - i - 1) as nat) >= 1,
            ;
        }
        p = 2 * p;
        i = i + 1;
    }
    proof {
        lemma_pow2_pos(k as nat);
    }
    p
}

/// The largest power of two that fits 128 bits.
proof fn lemma_pow2_127()
    ensures
        pow2(127) == 0x8000_0000_0000_0000_0000_0000_0000_0000,
{
    lemma2_to64_rest();
    lemma_pow2_adds(63, 64);
}

/// The center frequency rounded to binary64, in hertz.
fn rounded_center(center_hz: u64) -> (c: u128)
    ensures
        c * pow2(1074) == center_value(center_hz),
        c <= 0x1_0000_0000_0000_0000,
{
    let c: u128 = round_quotient(center_hz as u128, 1);
    proof {
        lemma_unit(center_hz as int, 1074);
        lemma2_to64();
        assert(is_scaled(0x1_0000_0000_0000_0000, 1, 64));
        lemma_nearest_at_most(center_hz as int, 1, 0x1_0000_0000_0000_0000);
        assert(center_hz * pow2(1074) >= 0) by (nonlinear_arith);
    }
    c
}

/// The rounding of a difference that is a whole number of 2^-61 Hz.
proof fn lemma_exact_difference(x: int, n: int)
    requires
        x == n * pow2(1013),
    ensures
        nearest(x, 1) == nearest(n, 1) * pow2(1013),
{
    lemma_pow2_pos(1013);
    if n < 0 {
        lemma_unit(-n, 1013);
        assert(x < 0 && -x == (-n) * pow2(1013)) by (nonlinear_arith)
            requires
                x == n * pow2(1013),
                n < 0,
                pow2(1013) > 0,
        ;
        assert(-(nearest_magnitude(-n, 1) * pow2(1013)) == (-nearest_magnitude(-n, 1)) * pow2(1013))
            by (nonlinear_arith);
    } else {
        lemma_unit(n, 1013);
        assert(x >= 0) by (nonlinear_arith)
            requires
                x == n * pow2(1013),
                n >= 0,
        ;
    }
}

/// The rounding of a magnitude that lies strictly between `a` and `a + 1`
/// units of 2^-60 Hz.
proof fn lemma_inexact_difference(x: int, a: int)
    requires
        a >= SIGNIFICAND_LIMIT,
        a * pow2(1014) < x < (a + 1) * pow2(1014),
    ensures
        nearest_magnitude(x, 1) == nearest_magnitude(2 * a + 1, 1) * pow2(1013),
{
    let w = pow2(1014) as int;
    lemma_pow2_pos(1014);
    lemma_pow2_unfold(1014);
    assert(2 * x >= w * SIGNIFICAND_LIMIT) by (nonlinear_arith)
        requires
            a >= SIGNIFICAND_LIMIT,
            a * w < x,
            w > 0,
    ;
    assert(x >= 0) by (nonlinear_arith)
        requires
            a >= 0,
            a * w < x,
            w > 0,
    ;
    lemma_scale_up(x, w, 1014);
    lemma_ratio(x, 1, w);
    assert(w * x == x * pow2(1014) && w * 1 == w) by (nonlinear_arith)
        requires
            w == pow2(1014),
    ;
    lemma_between(x, w, a);
    let y = 2 * a + 1;
    lemma_ratio(y, 1, 2);
    lemma2_to64();
    lemma_scale_up(y, 2, 1);
    assert(nearest_magnitude(y, 1) == 2 * nearest_magnitude(y, 2));
    assert(nearest_magnitude(y, 2) * w == (2 * nearest_magnitude(y, 2)) * pow2(1013))
        by (nonlinear_arith)
        requires
            w == 2 * pow2(1013),
    ;
}

/// A channel at or above 2^65 Hz is beyond every window.
proof fn lemma_far(m: int, s: nat, c: int, negative: bool, x: int)
    requires
        m >= 0x10_0000_0000_0000,
        s >= 1087,
        0 <= c <= 0x1_0000_0000_0000_0000,
        x == (if negative {
            -(m * pow2(s))
        } else {
            m * pow2(s)
        }) - c * pow2(1074),
    ensures
        nearest(x, 1) <= -pow2(1138) || nearest(x, 1) >= pow2(1138),
{
    let e = (s - 1087) as nat;
    lemma2_to64();
    lemma2_to64_rest();
    lemma_pow2_adds(1087, e);
    lemma_pow2_adds(1074, 13);
    lemma_pow2_adds(1074, 64);
    lemma_pow2_pos(e);
    lemma_pow2_pos(1074);
    let p = pow2(1074);
    assert(m * pow2(s) >= 0x2_0000_0000_0000_0000 * p) by (nonlinear_arith)
        requires
            m >= 0x10_0000_0000_0000,
            pow2(s) == (p * 0x2000) * pow2(e),
            pow2(e) >= 1,
            p >= 1,
    ;
    assert(0 <= c * p <= 0x1_0000_0000_0000_0000 * p) by (nonlinear_arith)
        requires
            0 <= c <= 0x1_0000_0000_0000_0000,
            p >= 1,
    ;
    assert(is_scaled(pow2(1138) as int, 1, 1138));
    if negative {
        lemma_nearest_at_least(-x, 1, pow2(1138) as int);
    } else {
        lemma_nearest_at_least(x, 1, pow2(1138) as int);
    }
}

/// A significand scaled up by at most 73 places.
fn near_magnitude(m: u64, up: u64) -> (f: u128)
    requires
        m < 0x20_0000_0000_0000,
        up <= 73,
    ensures
        f == m * pow2(up as nat),
        f < 0x4000_0000_0000_0000_0000_0000_0000_0000,
{
    let p: u128 = power(up);
    proof {
        lemma2_to64();
        lemma2_to64_rest();
        lemma_pow2_adds(up as nat, (73 - up) as nat);
        lemma_pow2_adds(9, 64);
        lemma_pow2_pos((73 - up) as nat);
        assert(p <= pow2(73)) by (nonlinear_arith)
            requires
                pow2(73) == p * pow2((73 - up) as nat),
                pow2((73 - up) as nat) >= 1,
        ;
        assert(m * p < 0x4000_0000_0000_0000_0000_0000_0000_0000) by (nonlinear_arith)
            requires
                m < 0x20_0000_0000_0000,
                p <= 0x200_0000_0000_0000_0000,
        ;
    }
    m as u128 * p
}

/// The distance from a nonzero center to a channel below 2^-8 Hz in units of
/// 2^-61 Hz, made odd when it is inexact, so that it rounds as the distance.
fn tiny_difference(negative: bool, m: u64, s: u64, c: u128) -> (d: u128)
    requires
        m < 0x20_0000_0000_0000,
        s < 1013,
        1 <= c <= 0x1_0000_0000_0000_0000,
    ensures
        d < 0x8000_0000_0000_0000_0000_0000_0000_0000,
        ({
            let f = m * pow2(s as nat);
            let x = c * pow2(1074) + if negative {
                f
            } else {
                -f
            };
            x > 0 && nearest_magnitude(x, 1) == nearest_magnitude(d as int, 1) * pow2(1013)
        }),
{
    let sh: u64 = 1014 - s;
    let (q, r): (u128, u128) = if sh <= 63 {
        let p: u128 = power(sh);
        (m as u128 / p, m as u128 % p)
    } else {
        (0, m as u128)
    };
    let cu: u128 = c * 0x1000_0000_0000_0000;
    let ghost w = pow2(1014) as int;
    let ghost u = pow2(s as nat) as int;
    let ghost p = pow2(sh as nat) as int;
    let ghost f = m * u;
    let ghost x = c * pow2(1074) + if negative {
        f
    } else {
        -f
    };
    proof {
        lemma2_to64();
        lemma2_to64_rest();
        lemma_pow2_adds(s as nat, sh as nat);
        lemma_pow2_adds(1014, 60);
        lemma_pow2_unfold(1014);
        lemma_pow2_pos(s as nat);
        lemma_pow2_pos(1013);
        if sh <= 63 {
            lemma_fundamental_div_mod(m as int, p);
            lemma_pow2_unfold(sh as nat);
            lemma_pow2_pos((sh - 1) as nat);
            assert(q <= m) by (nonlinear_arith)
                requires
                    m == p * q + r,
                    p >= 1,
                    r >= 0,
                    q >= 0,
            ;
        } else {
            lemma_pow2_adds(64, (sh - 64) as nat);
            lemma_pow2_pos((sh - 64) as nat);
            assert(m < p) by (nonlinear_arith)
                requires
                    p == 0x1_0000_0000_0000_0000 * pow2((sh - 64) as nat),
                    pow2((sh - 64) as nat) >= 1,
                    m < 0x20_0000_0000_0000,
            ;
        }
        assert(m == p * q + r && 0 <= r < p);
        assert(f == q * w + r * u) by (nonlinear_arith)
            requires
                f == m * u,
                m == p * q + r,
                w == u * p,
        ;
        assert(c * pow2(1074) == cu * w) by (nonlinear_arith)
            requires
                pow2(1074) == w * 0x1000_0000_0000_0000,
                cu == c * 0x1000_0000_0000_0000,
        ;
        assert(r * u < w && (r > 0 ==> r * u > 0)) by (nonlinear_arith)
            requires
                0 <= r < p,
                w == u * p,
                u >= 1,
        ;
    }
    if r == 0 {
        let d: u128 = if negative {
            2 * (cu + q)
        } else {
            2 * (cu - q)
        };
        proof {
            assert(x == d * pow2(1013)) by (nonlinear_arith)
                requires
                    x == cu * w + (if negative { q * w + r * u } else { -(q * w + r * u) }),
                    r == 0,
                    d == 2 * (cu + (if negative { q as int } else { -(q as int) })),
                    w == 2 * pow2(1013),
            ;
            lemma_exact_difference(x, d as int);
            assert(x > 0) by (nonlinear_arith)
                requires
                    x == d * pow2(1013),
                    d > 0,
                    pow2(1013) > 0,
            ;
        }
        d
    } else {
        let a: u128 = if negative {
            cu + q
        } else {
            cu - q - 1
        };
        proof {
            assert(a * w < x < (a + 1) * w) by (nonlinear_arith)
                requires
                    x == cu * w + (if negative { q * w + r * u } else { -(q * w + r * u) }),
                    0 < r * u < w,
                    a == (if negative { cu + q } else { cu - q - 1 }),
            ;
            lemma_inexact_difference(x, a as int);
            assert(x > 0) by (nonlinear_arith)
                requires
                    a * w < x,
                    a >= 0,
                    w >= 0,
            ;
        }
        2 * a + 1
    }
}

/// Computes the rounded offset of a channel from the center, or finds that it
/// is beyond every window.
fn offset(freq_hz: Double, center_hz: u64) -> (o: Option<Offset>)
    requires
        freq_hz.is_finite(),
    ensures
        match o {
            Some(o) => {
                &&& o.value() == offset_value(freq_hz, center_hz)
                &&& o.places == 1013 || (o.places < 1013 && o.magnitude < 0x20_0000_0000_0000)
            },
            None => offset_value(freq_hz, center_hz) <= -pow2(1138) || offset_value(
                freq_hz,
                center_hz,
            ) >= pow2(1138),
        },
{
    let (negative, m, s) = freq_hz.parts();
    let c: u128 = rounded_center(center_hz);
    let ghost x = freq_hz.value() - center_value(center_hz);
    let ghost fm = m * pow2(s as nat);
    if s >= 1087 {
        proof {
            lemma_far(m as int, s as nat, c as int, negative, x);
        }
        None
    } else if s >= 1013 {
        let up: u64 = s - 1013;
        let f: u128 = near_magnitude(m, up);
        let cu: u128 = c * 0x2000_0000_0000_0000;
        proof {
            lemma2_to64_rest();
            lemma_pow2_adds(1013, up as nat);
            lemma_pow2_adds(1013, 61);
            let p = pow2(1013);
            assert(m * pow2(s as nat) == f * p) by (nonlinear_arith)
                requires
                    pow2(s as nat) == p * pow2(up as nat),
                    f == m * pow2(up as nat),
            ;
            assert(c * pow2(1074) == cu * p) by (nonlinear_arith)
                requires
                    pow2(1074) == p * 0x2000_0000_0000_0000,
                    cu == c * 0x2000_0000_0000_0000,
            ;
            let sf = if negative { -(f as int) } else { f as int };
            assert(x == (sf - cu) * p) by (nonlinear_arith)
                requires
                    x == (if negative { -(f * p) } else { f * p }) - cu * p,
                    sf == (if negative { -(f as int) } else { f as int }),
            ;
            lemma_exact_difference(x, sf - cu);
        }
        let (below, mag): (bool, u128) = if negative {
            (true, f + cu)
        } else if f < cu {
            (true, cu - f)
        } else {
            (false, f - cu)
        };
        let magnitude: u128 = round_quotient(mag, 1);
        proof {
            assert(-(magnitude * pow2(1013)) == (-magnitude) * pow2(1013)) by (nonlinear_arith);
        }
        Some(Offset { negative: below, magnitude, places: 1013 })
    } else if c == 0 {
        proof {
            assert(is_scaled(fm, m as int, s as nat));
            assert(fm >= 0) by (nonlinear_arith)
                requires
                    fm == m * pow2(s as nat),
            ;
            lemma_nearest_exact(fm);
            assert(0 * pow2(1074) == 0);
        }
        Some(Offset { negative, magnitude: m as u128, places: s })
    } else {
        let magnitude: u128 = round_quotient(tiny_difference(negative, m, s, c), 1);
        Some(Offset { negative: true, magnitude, places: 1013 })
    }
}

/// Whether a channel lies in the capture window
/// `[center - Fs/2, center + Fs/2)`.
pub fn in_capture_window(freq_hz: Double, center_hz: u64, samp_rate: u32) -> (r: bool)
    ensures
        r == in_window(freq_hz, center_hz, samp_rate),
{
    if samp_rate == 0 || !freq_hz.finite() {
        return false;
    }
    let half: u128 = samp_rate as u128 * 0x1000_0000_0000_0000;
    let ghost p = pow2(1013) as int;
    let ghost h = pow2(1073) as int;
    proof {
        lemma2_to64_rest();
        lemma2_to64();
        lemma_pow2_adds(1013, 60);
        lemma_pow2_adds(1073, 1);
        lemma_pow2_adds(1074, 64);
        lemma_pow2_pos(1013);
        assert(samp_rate * h == half * p) by (nonlinear_arith)
            requires
                h == p * 0x1000_0000_0000_0000,
                half == samp_rate * 0x1000_0000_0000_0000,
        ;
    }
    match offset(freq_hz, center_hz) {
        None => {
            assert(samp_rate * h < pow2(1138)) by (nonlinear_arith)
                requires
                    pow2(1138) == (h * 2) * 0x1_0000_0000_0000_0000,
                    samp_rate < 0x1_0000_0000,
                    h == p * 0x1000_0000_0000_0000,
                    p >= 1,
            ;
            false
        },
        Some(o) => {
            if o.places == 1013 {
                let mag: u128 = o.magnitude;
                proof {
                    assert(half > 0);
                    assert(mag < half <==> mag * p < half * p) by (nonlinear_arith)
                        requires
                            p >= 1,
                    ;
                    assert(mag <= half <==> mag * p <= half * p) by (nonlinear_arith)
                        requires
                            p >= 1,
                    ;
                    assert(half * p > 0 && mag * p >= 0) by (nonlinear_arith)
                        requires
                            p >= 1,
                            half > 0,
                    ;
                }
                if o.negative {
                    mag <= half
                } else {
                    mag < half
                }
            } else {
                proof {
                    lemma_small_offset(o.magnitude as int, o.places as nat);
                    assert(half * p >= h) by (nonlinear_arith)
                        requires
                            half >= 0x1000_0000_0000_0000,
                            h == p * 0x1000_0000_0000_0000,
                            p >= 1,
                    ;
                    assert(o.magnitude * pow2(o.places as nat) >= 0) by (nonlinear_arith);
                }
                true
            }
        },
    }
}

/// A significand at a low place is a small offset.
proof fn lemma_small_offset(m: int, places: nat)
    requires
        0 <= m < 0x20_0000_0000_0000,
        places < 1013,
    ensures
        m * pow2(places) < pow2(1073),
{
    lemma2_to64_rest();
    lemma_pow2_adds(places, (1013 - places) as nat);
    lemma_pow2_adds(1013, 60);
    lemma_pow2_pos((1013 - places) as nat);
    lemma_pow2_pos(places);
    assert(m * pow2(places) < pow2(1073)) by (nonlinear_arith)
        requires
            m < 0x20_0000_0000_0000,
            pow2(1073) == (pow2(places) * pow2((1013 - places) as nat)) * 0x1000_0000_0000_0000,
            pow2((1013 - places) as nat) >= 1,
            pow2(places) >= 1,
    ;
}

/// An offset far below a thousandth of a hertz has the tuning word zero.
proof fn lemma_zero_word(v: int, cycles: int, samp_rate: u32)
    requires
        samp_rate > 0,
        cycles == nearest(v, samp_rate as int),
        -pow2(953) <= v <= pow2(953),
    ensures
        -pow2(1073) <= cycles < pow2(1073),
        round_half_away(cycles * 0x100_0000, pow2(1074) as int) == 0,
{
    let y = pow2(953) as int;
    lemma2_to64();
    lemma2_to64_rest();
    lemma_pow2_pos(953);
    lemma_pow2_adds(953, 60);
    lemma_pow2_adds(1013, 60);
    lemma_pow2_adds(1073, 1);
    assert(is_scaled(y, 1, 953));
    assert(y <= y * samp_rate) by (nonlinear_arith)
        requires
            y >= 1,
            samp_rate >= 1,
    ;
    if v < 0 {
        lemma_nearest_at_most(-v, samp_rate as int, y);
        lemma_nearest_representable(-v, samp_rate as int);
    } else {
        lemma_nearest_at_most(v, samp_rate as int, y);
        lemma_nearest_representable(v, samp_rate as int);
    }
    let d = pow2(1074) as int;
    let n = if cycles < 0 { -cycles } else { cycles };
    assert(0 <= 2 * (n * 0x100_0000) + d < 2 * d);
    lemma_fundamental_div_mod_converse(
        2 * (n * 0x100_0000) + d,
        2 * d,
        0,
        2 * (n * 0x100_0000) + d,
    );
}

/// An offset of at least the sample rate is not tunable.
proof fn lemma_outside(v: int, samp_rate: u32)
    requires
        samp_rate > 0,
        v >= samp_rate * pow2(1074) || v <= -(samp_rate * pow2(1074)),
    ensures
        nearest(v, samp_rate as int) >= pow2(1073) || nearest(v, samp_rate as int) < -pow2(1073),
{
    let y = pow2(1074) as int;
    lemma2_to64();
    lemma_pow2_adds(1073, 1);
    lemma_pow2_pos(1073);
    assert(is_scaled(y, 1, 1074));
    assert(samp_rate * y > 0) by (nonlinear_arith)
        requires
            samp_rate > 0,
            y > 0,
    ;
    assert(y * samp_rate == samp_rate * y) by (nonlinear_arith);
    if v < 0 {
        lemma_nearest_at_least(-v, samp_rate as int, y);
    } else {
        lemma_nearest_at_least(v, samp_rate as int, y);
    }
}

/// Turns an offset in cycles per sample, `r * 2^places` in units of 2^-1074
/// with the given sign, into its tuning word.
fn finish_word(negative: bool, r: u128, places: u64) -> (word: Option<u32>)
    requires
        800 <= places <= 1013,
        r <= 0x20_0000_0000_0000_0000_0000_0000,
    ensures
        ({
            let mag = r * pow2(places as nat);
            let cycles = if negative {
                -mag
            } else {
                mag
            };
            match word {
                Some(w) => -pow2(1073) <= cycles < pow2(1073) && w == round_half_away(
                    cycles * 0x100_0000,
                    pow2(1074) as int,
                ) % 0x100_0000,
                None => !(-pow2(1073) <= cycles < pow2(1073)),
            }
        }),
{
    let gap: u64 = 1073 - places;
    let ghost p = pow2(places as nat) as int;
    let ghost mag = r * p;
    let ghost h = pow2(gap as nat) as int;
    let ghost g = pow2((gap - 23) as nat) as int;
    let ghost d = pow2(1074) as int;
    proof {
        lemma2_to64();
        lemma2_to64_rest();
        lemma_pow2_pos(places as nat);
        lemma_pow2_pos((gap - 23) as nat);
        lemma_pow2_adds(places as nat, gap as nat);
        lemma_pow2_adds((gap - 23) as nat, 23);
        lemma_pow2_adds(1073, 1);
        assert(pow2(1073) == p * h);
        assert(mag >= 0) by (nonlinear_arith)
            requires
                mag == r * p,
                p >= 1,
        ;
        assert(r < h <==> mag < p * h) by (nonlinear_arith)
            requires
                mag == r * p,
                p >= 1,
        ;
        assert(r <= h <==> mag <= p * h) by (nonlinear_arith)
            requires
                mag == r * p,
                p >= 1,
        ;
        assert(p * h > 0) by (nonlinear_arith)
            requires
                p >= 1,
                h >= 1,
        ;
        // Both sides of the quotient share the factor k.
        let k = p * 0x100_0000;
        assert(2 * (mag * 0x100_0000) + d == k * (2 * r + g)) by (nonlinear_arith)
            requires
                mag == r * p,
                k == p * 0x100_0000,
                d == (p * h) * 2,
                h == g * 0x80_0000,
        ;
        assert(2 * d == k * (2 * g)) by (nonlinear_arith)
            requires
                k == p * 0x100_0000,
                d == (p * h) * 2,
                h == g * 0x80_0000,
        ;
        lemma_div_multiples_vanish_quotient(k, 2 * r + g, 2 * g);
        assert((2 * (mag * 0x100_0000) + d) / (2 * d) == (2 * r + g) / (2 * g));
        let w = (2 * r + g) / (2 * g);
        let cycles = if negative { -mag } else { mag };
        if mag == 0 {
            assert(r == 0) by (nonlinear_arith)
                requires
                    mag == 0,
                    mag == r * p,
                    p >= 1,
            ;
            lemma_fundamental_div_mod_converse(g, 2 * g, 0, g);
        }
        assert(round_half_away(cycles * 0x100_0000, d) == if negative { -w } else { w });
    }
    if gap > 125 {
        proof {
            lemma_pow2_adds(64, 39);
            lemma_pow2_adds(103, (gap - 23 - 103) as nat);
            lemma_pow2_pos((gap - 23 - 103) as nat);
            assert(g >= pow2(103)) by (nonlinear_arith)
                requires
                    g == pow2(103) * pow2((gap - 23 - 103) as nat),
                    pow2((gap - 23 - 103) as nat) >= 1,
            ;
            lemma_fundamental_div_mod_converse(2 * r + g, 2 * g, 0, 2 * r + g);
        }
        Some(0)
    } else {
        let limit: u128 = power(gap);
        let unit: u128 = power(gap - 23);
        if r > limit || (r == limit && !negative) {
            None
        } else {
            proof {
                lemma_pow2_adds((gap - 23) as nat, (102 - (gap - 23)) as nat);
                lemma_pow2_adds(64, 38);
                lemma_pow2_pos((102 - (gap - 23)) as nat);
                assert(unit <= pow2(102)) by (nonlinear_arith)
                    requires
                        pow2(102) == unit * pow2((102 - (gap - 23)) as nat),
                        pow2((102 - (gap - 23)) as nat) >= 1,
                ;
            }
            let w: u128 = (2 * r + unit) / (2 * unit);
            proof {
                lemma_fundamental_div_mod(2 * r + unit, 2 * unit);
                assert(w <= 0x80_0000) by (nonlinear_arith)
                    requires
                        2 * r + unit >= (2 * unit) * w,
                        r <= unit * 0x80_0000,
                        unit > 0,
                ;
            }
            let low: u32 = w as u32;
            if negative && low > 0 {
                Some(0x100_0000 - low)
            } else {
                Some(low)
            }
        }
    }
}

/// The tuning word of a channel's oscillator, or `None` when the channel is
/// outside the capture window.
pub fn tuning_word(freq_hz: Double, center_hz: u64, samp_rate: u32) -> (word: Option<u32>)
    ensures
        match word {
            Some(w) => tunable(freq_hz, center_hz, samp_rate) && w == word_of(
                freq_hz,
                center_hz,
                samp_rate,
            ),
            None => !tunable(freq_hz, center_hz, samp_rate),
        },
{
    if samp_rate == 0 || !freq_hz.finite() {
        return None;
    }
    let o = match offset(freq_hz, center_hz) {
        None => {
            proof {
                lemma2_to64();
                lemma_pow2_adds(1074, 64);
                lemma_pow2_pos(1074);
                assert(pow2(1138) >= samp_rate * pow2(1074)) by (nonlinear_arith)
                    requires
                        pow2(1138) == pow2(1074) * 0x1_0000_0000_0000_0000,
                        samp_rate < 0x1_0000_0000,
                ;
                lemma_outside(offset_value(freq_hz, center_hz), samp_rate);
            }
            return None;
        },
        Some(o) => o,
    };
    let ghost v = offset_value(freq_hz, center_hz);
    proof {
        lemma2_to64();
        lemma2_to64_rest();
        lemma_pow2_pos(953);
    }
    if o.magnitude == 0 {
        proof {
            assert(0 * pow2(o.places as nat) == 0);
            lemma_zero_word(v, cycles_value(freq_hz, center_hz, samp_rate), samp_rate);
        }
        return Some(0);
    }
    if o.places < 900 {
        proof {
            lemma_pow2_adds(900, 53);
            lemma_pow2_adds(o.places as nat, (900 - o.places) as nat);
            lemma_pow2_pos((900 - o.places) as nat);
            lemma_pow2_pos(o.places as nat);
            assert(0 <= o.magnitude * pow2(o.places as nat) <= pow2(953)) by (nonlinear_arith)
                requires
                    o.magnitude < 0x20_0000_0000_0000,
                    pow2(953) == (pow2(o.places as nat) * pow2((900 - o.places) as nat))
                        * 0x20_0000_0000_0000,
                    pow2((900 - o.places) as nat) >= 1,
                    pow2(o.places as nat) >= 1,
            ;
            lemma_zero_word(v, cycles_value(freq_hz, center_hz, samp_rate), samp_rate);
        }
        return Some(0);
    }
    if o.places == 1013 && o.magnitude >= samp_rate as u128 * 0x2000_0000_0000_0000 {
        proof {
            lemma_pow2_adds(1013, 61);
            assert(o.magnitude * pow2(1013) >= samp_rate * pow2(1074)) by (nonlinear_arith)
                requires
                    pow2(1074) == pow2(1013) * 0x2000_0000_0000_0000,
                    o.magnitude >= samp_rate * 0x2000_0000_0000_0000,
            ;
            lemma_outside(v, samp_rate);
        }
        return None;
    }
    let mut big: u128 = o.magnitude;
    let mut places: u64 = o.places;
    let ghost mag = o.magnitude * pow2(o.places as nat);
    while big < 0x10_0000_0000_0000_0000_0000_0000
        invariant
            0 < big < 0x20_0000_0000_0000_0000_0000_0000,
            900 <= o.places <= 1013,
            o.places - 100 <= places <= o.places,
            big * pow2(places as nat) == mag,
            big >= pow2((o.places - places) as nat),
        decreases places,
    {
        proof {
            lemma_pow2_unfold(places as nat);
            lemma_pow2_unfold((o.places - places + 1) as nat);
            lemma2_to64_rest();
            lemma_pow2_adds(64, 36);
            assert((2 * big) * pow2((places - 1) as nat) == big * pow2(places as nat))
                by (nonlinear_arith)
                requires
                    pow2(places as nat) == 2 * pow2((places - 1) as nat),
            ;
        }
        big = 2 * big;
        places = places - 1;
    }
    let r: u128 = round_quotient(big, samp_rate);
    proof {
        lemma_scale_up(big as int, samp_rate as int, places as nat);
        let y = 0x20_0000_0000_0000_0000_0000_0000int;
        lemma2_to64_rest();
        lemma_pow2_adds(64, 37);
        assert(is_scaled(y, 1, 101));
        lemma_nearest_at_most(big as int, samp_rate as int, y);
        lemma_pow2_pos(places as nat);
        assert(mag > 0) by (nonlinear_arith)
            requires
                mag == big * pow2(places as nat),
                big > 0,
                pow2(places as nat) > 0,
        ;
    }
    finish_word(o.negative, r, places)
}

} // verus!

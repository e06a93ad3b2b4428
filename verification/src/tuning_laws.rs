//! Laws of the capture window and of the tuning words.

use crate::double::Double;
use crate::rounding::{
    distance, is_scaled, law_nearest, law_rounding_error, lemma_nearest_at_least,
    lemma_nearest_at_most, lemma_nearest_exact, lemma_nearest_representable, lemma_scale,
    nearest_magnitude, representable, round_half_even, SIGNIFICAND_LIMIT,
};
use crate::tuning::{center_value, cycles_value, in_window, offset_value, tunable, word_of};
use vstd::arithmetic::div_mod::{lemma_fundamental_div_mod, lemma_fundamental_div_mod_converse};
use vstd::arithmetic::power2::{
    lemma2_to64, lemma2_to64_rest, lemma_pow2_adds, lemma_pow2_pos, lemma_pow2_unfold, pow2,
};
use vstd::prelude::*;

verus! {

/// A representable value other than half the sample rate differs from it by
/// more than a 53-bit quotient can lose.
proof fn lemma_half_rate_gap(y: int, samp_rate: u32)
    requires
        representable(y),
        y >= 0,
        samp_rate > 0,
    ensures
        y < samp_rate * pow2(1073) ==> (samp_rate * pow2(1073) - y) * SIGNIFICAND_LIMIT
            >= samp_rate * pow2(1073),
        y > samp_rate * pow2(1073) ==> (y - samp_rate * pow2(1073)) * SIGNIFICAND_LIMIT
            > samp_rate * pow2(1073),
{
    let (a, b) = choose|a: int, b: nat| #[trigger] is_scaled(y, a, b);
    if b < 1073 && a == SIGNIFICAND_LIMIT {
        lemma_pow2_unfold(b + 1);
        let c = a / 2;
        assert(c * pow2(b + 1) == a * pow2(b)) by (nonlinear_arith)
            requires
                pow2(b + 1) == 2 * pow2(b),
                a == 2 * c,
        ;
        lemma_half_rate_gap_at(c, b + 1, samp_rate);
    } else {
        lemma_half_rate_gap_at(a, b, samp_rate);
    }
}

/// [`lemma_half_rate_gap`] for a given significand and scale.
proof fn lemma_half_rate_gap_at(a: int, b: nat, samp_rate: u32)
    requires
        0 <= a <= SIGNIFICAND_LIMIT,
        a < SIGNIFICAND_LIMIT || b >= 1073,
        samp_rate > 0,
    ensures
        ({
            let h = samp_rate * pow2(1073);
            let y = a * pow2(b);
            &&& y < h ==> (h - y) * SIGNIFICAND_LIMIT >= h
            &&& y > h ==> (y - h) * SIGNIFICAND_LIMIT > h
        }),
{
    let p = pow2(1073) as int;
    let h = samp_rate * p;
    let u = pow2(b) as int;
    let y = a * u;
    let l = SIGNIFICAND_LIMIT as int;
    lemma_pow2_pos(b);
    lemma_pow2_pos(1073);
    assert(h < p * l) by (nonlinear_arith)
        requires
            h == samp_rate * p,
            samp_rate < 0x1_0000_0000,
            l == 0x20_0000_0000_0000,
            p >= 1,
    ;
    if b >= 1073 {
        let e = pow2((b - 1073) as nat) as int;
        lemma_pow2_adds(1073, (b - 1073) as nat);
        let z = a * e;
        assert(y == z * p) by (nonlinear_arith)
            requires
                y == a * u,
                u == p * e,
                z == a * e,
        ;
        if y < h {
            assert((h - y) * l >= h) by (nonlinear_arith)
                requires
                    y == z * p,
                    h == samp_rate * p,
                    y < h,
                    h < p * l,
                    p >= 1,
                    l >= 1,
            ;
        }
        if y > h {
            assert((y - h) * l > h) by (nonlinear_arith)
                requires
                    y == z * p,
                    h == samp_rate * p,
                    y > h,
                    h < p * l,
                    p >= 1,
                    l >= 1,
            ;
        }
    } else {
        let e = pow2((1073 - b) as nat) as int;
        lemma_pow2_adds(b, (1073 - b) as nat);
        let z = samp_rate * e;
        assert(h == z * u) by (nonlinear_arith)
            requires
                h == samp_rate * p,
                p == u * e,
                z == samp_rate * e,
        ;
        if y < h {
            assert(z - a >= 1) by (nonlinear_arith)
                requires
                    a * u < z * u,
                    u >= 1,
            ;
            assert((z - a) * l >= z) by (nonlinear_arith)
                requires
                    z - a >= 1,
                    0 <= a <= l - 1,
                    l >= 1,
            ;
            assert((h - y) * l >= h) by (nonlinear_arith)
                requires
                    h == z * u,
                    y == a * u,
                    (z - a) * l >= z,
                    u >= 1,
            ;
        }
        if y > h {
            assert(a - z >= 1) by (nonlinear_arith)
                requires
                    a * u > z * u,
                    u >= 1,
            ;
            assert((a - z) * l >= l) by (nonlinear_arith)
                requires
                    a - z >= 1,
                    l >= 0,
            ;
            assert((y - h) * l > h) by (nonlinear_arith)
                requires
                    h == z * u,
                    y == a * u,
                    (a - z) * l > z,
                    u >= 1,
            ;
        }
    }
}

/// A quotient that exceeds 2^1073 by more than half a step of the rounding
/// there rounds to more than 2^1073.
proof fn lemma_rounds_above(n: int, d: int)
    requires
        d > 0,
        (n - d * pow2(1073)) * SIGNIFICAND_LIMIT > d * pow2(1073),
    ensures
        nearest_magnitude(n, d) > pow2(1073),
{
    let p = pow2(1073) as int;
    let l = SIGNIFICAND_LIMIT as int;
    lemma2_to64();
    lemma2_to64_rest();
    lemma_pow2_pos(1021);
    lemma_pow2_adds(1021, 52);
    lemma_pow2_adds(1020, 53);
    lemma_pow2_unfold(1021);
    assert(d * p >= 0) by (nonlinear_arith)
        requires
            d > 0,
            p >= 0,
    ;
    assert(n > d * p) by (nonlinear_arith)
        requires
            (n - d * p) * l > d * p,
            d * p >= 0,
            l > 0,
    ;
    if n >= d * (2 * p) {
        lemma_pow2_unfold(1074);
        assert(is_scaled(2 * p, 1, 1074));
        assert((2 * p) * d == d * (2 * p)) by (nonlinear_arith);
        lemma_nearest_at_least(n, d, 2 * p);
        lemma_pow2_pos(1073);
    } else {
        let k = lemma_scale(n, d);
        let u = pow2(1021) as int;
        lemma_pow2_pos(k);
        if k < 1021 {
            lemma_pow2_adds(k, (1020 - k) as nat);
            lemma_pow2_pos((1020 - k) as nat);
            assert(pow2(k) <= pow2(1020)) by (nonlinear_arith)
                requires
                    pow2(1020) == pow2(k) * pow2((1020 - k) as nat),
                    pow2((1020 - k) as nat) >= 1,
            ;
            assert(d * pow2(k) * l <= d * p) by (nonlinear_arith)
                requires
                    p == pow2(1020) * l,
                    pow2(k) <= pow2(1020),
                    d > 0,
                    l > 0,
            ;
            assert(false);
        }
        if k > 1021 {
            lemma_pow2_adds(1021, (k - 1022) as nat);
            lemma_pow2_pos((k - 1022) as nat);
            assert(pow2((k - 1) as nat) >= u) by (nonlinear_arith)
                requires
                    pow2((k - 1) as nat) == u * pow2((k - 1022) as nat),
                    pow2((k - 1022) as nat) >= 1,
            ;
            assert(d * pow2((k - 1) as nat) * l >= d * (2 * p)) by (nonlinear_arith)
                requires
                    pow2((k - 1) as nat) >= u,
                    2 * p == u * l,
                    d > 0,
                    l > 0,
            ;
            assert(false);
        }
        let g = d * u;
        let m = 0x10_0000_0000_0000int;
        let q = n / g;
        let r = n % g;
        assert(g > 0) by (nonlinear_arith)
            requires
                g == d * u,
                d > 0,
                u > 0,
        ;
        lemma_fundamental_div_mod(n, g);
        assert(d * p == g * m) by (nonlinear_arith)
            requires
                p == u * m,
                g == d * u,
        ;
        assert(q >= m) by (nonlinear_arith)
            requires
                n == g * q + r,
                r < g,
                n > g * m,
                g > 0,
        ;
        assert(2 * (n - g * m) > g) by (nonlinear_arith)
            requires
                (n - g * m) * l > g * m,
                l == 2 * m,
                m > 0,
        ;
        if q == m {
            assert(r == n - g * m);
        }
        let a = round_half_even(n, g);
        assert(a >= m + 1);
        assert(u * a > p) by (nonlinear_arith)
            requires
                a >= m + 1,
                p == u * m,
                u > 0,
        ;
    }
}

/// The check that a channel lies in the capture window and the check that its
/// oscillator can be tuned agree: a channel is refused by both or by neither.
pub proof fn law_window_agrees_with_tuning(freq_hz: Double, center_hz: u64, samp_rate: u32)
    ensures
        in_window(freq_hz, center_hz, samp_rate) <==> tunable(freq_hz, center_hz, samp_rate),
{
    let p = pow2(1073) as int;
    lemma_pow2_pos(1073);
    if samp_rate > 0 && freq_hz.is_finite() {
        let d = samp_rate as int;
        let h = d * p;
        let v = offset_value(freq_hz, center_hz);
        let x = freq_hz.value() - center_value(center_hz);
        lemma_nearest_representable(if x < 0 { -x } else { x }, 1);
        let y = if v < 0 { -v } else { v };
        assert(representable(y));
        lemma_half_rate_gap(y, samp_rate);
        lemma_nearest_representable(y, d);
        assert(h > 0 && p * d == h) by (nonlinear_arith)
            requires
                h == d * p,
                d > 0,
                p > 0,
        ;
        assert(is_scaled(p, 1, 1073));
        if y > h {
            lemma_rounds_above(y, d);
        } else if y == h {
            lemma_nearest_at_least(y, d, p);
            lemma_nearest_at_most(y, d, p);
        } else {
            // The largest value below one half.
            let b = p - pow2(1020);
            lemma2_to64_rest();
            lemma_pow2_adds(1020, 53);
            lemma_pow2_pos(1020);
            assert(is_scaled(b, 0x1f_ffff_ffff_ffff, 1020));
            assert(y <= b * d) by (nonlinear_arith)
                requires
                    (h - y) * 0x20_0000_0000_0000 >= h,
                    h == d * p,
                    p == pow2(1020) * 0x20_0000_0000_0000,
                    b == p - pow2(1020),
            ;
            lemma_nearest_at_most(y, d, b);
        }
    } else if samp_rate == 0 {
        assert(0 * p == 0);
    }
}

/// A center frequency of at most 2^53 Hz is exact in binary64.
pub proof fn law_center_is_exact(center_hz: u64)
    requires
        center_hz <= SIGNIFICAND_LIMIT,
    ensures
        center_value(center_hz) == center_hz * pow2(1074),
{
    let y = center_hz * pow2(1074);
    assert(y >= 0) by (nonlinear_arith)
        requires
            y == center_hz * pow2(1074),
    ;
    assert(is_scaled(y, center_hz as int, 1074));
    lemma_nearest_exact(y);
}

/// The capture window is the half-open interval
/// `[center - Fs/2, center + Fs/2)` of the exact frequencies, except for a
/// channel whose offset is not on an edge of the window and is rounded onto it.
pub proof fn law_window_is_exact(freq_hz: Double, center_hz: u64, samp_rate: u32)
    requires
        freq_hz.is_finite(),
        ({
            let x = freq_hz.value() - center_value(center_hz);
            let h = samp_rate * pow2(1073);
            let v = offset_value(freq_hz, center_hz);
            (v == h || v == -h) ==> v == x
        }),
    ensures
        in_window(freq_hz, center_hz, samp_rate) <==> center_value(center_hz) - samp_rate * pow2(
            1073,
        ) <= freq_hz.value() < center_value(center_hz) + samp_rate * pow2(1073),
{
    let x = freq_hz.value() - center_value(center_hz);
    let h = samp_rate * pow2(1073);
    assert(h >= 0) by (nonlinear_arith)
        requires
            h == samp_rate * pow2(1073),
    ;
    assert(is_scaled(h, samp_rate as int, 1073));
    let n = if x < 0 { -x } else { x };
    lemma_nearest_representable(n, 1);
    if n >= h {
        lemma_nearest_at_least(n, 1, h);
    }
    if n <= h {
        lemma_nearest_at_most(n, 1, h);
    }
}

/// A channel on a whole number of hertz is in the capture window exactly when
/// its distance from the center, in whole hertz as well, is: no rounding of the
/// offset takes part.
pub proof fn law_whole_hertz_window(
    freq_hz: Double,
    hz: int,
    center_hz: u64,
    center: int,
    samp_rate: u32,
)
    requires
        freq_hz.is_finite(),
        freq_hz.value() == hz * pow2(1074),
        center_value(center_hz) == center * pow2(1074),
    ensures
        in_window(freq_hz, center_hz, samp_rate) <==> -samp_rate <= 2 * (hz - center) < samp_rate,
{
    let p = pow2(1073) as int;
    let x = freq_hz.value() - center_value(center_hz);
    let o = hz - center;
    let h = samp_rate * p;
    lemma_pow2_pos(1073);
    lemma_pow2_unfold(1074);
    assert(x == o * pow2(1074)) by (nonlinear_arith)
        requires
            x == hz * pow2(1074) - center * pow2(1074),
            o == hz - center,
    ;
    assert(x == (2 * o) * p) by (nonlinear_arith)
        requires
            x == o * pow2(1074),
            pow2(1074) == 2 * p,
    ;
    let n = if x < 0 { -x } else { x };
    let on = if o < 0 { -o } else { o };
    assert(n == on * pow2(1074)) by (nonlinear_arith)
        requires
            x == o * pow2(1074),
            n == (if x < 0 { -x } else { x }),
            on == (if o < 0 { -o } else { o }),
            pow2(1074) > 0,
    ;
    if on <= SIGNIFICAND_LIMIT {
        assert(is_scaled(n, on, 1074));
        lemma_nearest_exact(n);
    } else {
        let l = SIGNIFICAND_LIMIT * pow2(1074);
        assert(is_scaled(l, SIGNIFICAND_LIMIT as int, 1074));
        assert(n >= l && l > h) by (nonlinear_arith)
            requires
                n == on * pow2(1074),
                on > SIGNIFICAND_LIMIT,
                l == SIGNIFICAND_LIMIT * pow2(1074),
                pow2(1074) == 2 * p,
                h == samp_rate * p,
                samp_rate < 0x1_0000_0000,
                p > 0,
        ;
        lemma_nearest_at_least(n, 1, l);
        assert(h >= 0) by (nonlinear_arith)
            requires
                h == samp_rate * p,
                p > 0,
        ;
    }
    law_window_is_exact(freq_hz, center_hz, samp_rate);
    assert((-h <= x <==> -samp_rate <= 2 * o) && (x < h <==> 2 * o < samp_rate))
        by (nonlinear_arith)
        requires
            x == (2 * o) * p,
            h == samp_rate * p,
            p > 0,
    ;
}

/// A channel at the center frequency has the tuning word zero.
pub proof fn law_center_channel_word(freq_hz: Double, center_hz: u64, samp_rate: u32)
    requires
        freq_hz.is_finite(),
        freq_hz.value() == center_value(center_hz),
        samp_rate > 0,
    ensures
        tunable(freq_hz, center_hz, samp_rate),
        word_of(freq_hz, center_hz, samp_rate) == 0,
{
    let d = pow2(1074) as int;
    lemma2_to64();
    lemma_pow2_pos(1073);
    lemma_pow2_pos(1074);
    assert(is_scaled(0, 0, 0));
    lemma_nearest_exact(0);
    lemma_nearest_representable(0, samp_rate as int);
    lemma_nearest_at_most(0, samp_rate as int, 0);
    lemma_fundamental_div_mod_converse(d, 2 * d, 0, d);
}

/// A tuning word is the residue modulo 2^24 of an integer that is nearest to
/// 2^24 times the offset in cycles per sample, the one farther from zero where
/// two are; that integer is at least -2^23 and at most 2^23.
pub proof fn law_word_is_nearest(freq_hz: Double, center_hz: u64, samp_rate: u32) -> (w: int)
    requires
        tunable(freq_hz, center_hz, samp_rate),
    ensures
        word_of(freq_hz, center_hz, samp_rate) == w % 0x100_0000,
        -0x80_0000 <= w <= 0x80_0000,
        -pow2(1074) <= 2 * (w * pow2(1074) - cycles_value(freq_hz, center_hz, samp_rate)
            * 0x100_0000) <= pow2(1074),
        ({
            let c = cycles_value(freq_hz, center_hz, samp_rate) * 0x100_0000;
            let up = w * pow2(1074) - c;
            (2 * up == pow2(1074) ==> c >= 0) && (2 * up == -pow2(1074) ==> c < 0)
        }),
{
    let d = pow2(1074) as int;
    let c = cycles_value(freq_hz, center_hz, samp_rate) * 0x100_0000;
    let n = if c < 0 { -c } else { c };
    lemma_pow2_pos(1073);
    lemma_pow2_unfold(1074);
    let q = (2 * n + d) / (2 * d);
    lemma_fundamental_div_mod(2 * n + d, 2 * d);
    let r = (2 * n + d) % (2 * d);
    assert(2 * (d * q) == (2 * d) * q && d * q == q * d) by (nonlinear_arith);
    assert((-q) * d == -(q * d)) by (nonlinear_arith);
    assert(q <= 0x80_0000) by (nonlinear_arith)
        requires
            2 * n + d >= (2 * d) * q,
            n <= 0x80_0000 * d,
            d > 0,
    ;
    assert(q >= 0) by (nonlinear_arith)
        requires
            2 * n + d == (2 * d) * q + r,
            r < 2 * d,
            n >= 0,
            d > 0,
    ;
    if c < 0 {
        -q
    } else {
        q
    }
}

/// The size of an offset.
pub open spec fn size(x: int) -> int {
    if x < 0 {
        -x
    } else {
        x
    }
}

/// The center frequency is the binary64 value nearest to it, and off from it by
/// at most one part in 2^53.
pub proof fn law_center_is_nearest(center_hz: u64, y: int)
    requires
        y >= 0,
        representable(y),
    ensures
        center_value(center_hz) >= 0,
        representable(center_value(center_hz)),
        size(center_value(center_hz) - center_hz * pow2(1074)) <= size(
            y - center_hz * pow2(1074),
        ),
        size(center_value(center_hz) - center_hz * pow2(1074)) * 0x20_0000_0000_0000 <= center_hz
            * pow2(1074),
{
    let n = center_hz * pow2(1074);
    assert(n >= 0) by (nonlinear_arith)
        requires
            n == center_hz * pow2(1074),
    ;
    law_nearest(n, 1, y);
    law_rounding_error(n, 1);
    lemma_nearest_representable(n, 1);
}

/// The offset of a channel is the binary64 value nearest to its distance from
/// the center, and lies on the same side of it.
pub proof fn law_offset_is_nearest(freq_hz: Double, center_hz: u64, y: int)
    requires
        y >= 0,
        representable(y),
    ensures
        ({
            let x = freq_hz.value() - center_value(center_hz);
            let v = offset_value(freq_hz, center_hz);
            &&& representable(size(v))
            &&& size(size(v) - size(x)) <= size(y - size(x))
            &&& x >= 0 ==> v >= 0
            &&& x <= 0 ==> v <= 0
        }),
{
    let x = freq_hz.value() - center_value(center_hz);
    law_nearest(size(x), 1, y);
    lemma_nearest_representable(size(x), 1);
    if x == 0 {
        assert(is_scaled(0, 0, 0));
        lemma_nearest_exact(0);
    }
}

/// The offset in cycles per sample is the binary64 value nearest to the offset
/// over the sample rate.
pub proof fn law_cycles_are_nearest(freq_hz: Double, center_hz: u64, samp_rate: u32, y: int)
    requires
        samp_rate > 0,
        y >= 0,
        representable(y),
    ensures
        ({
            let v = offset_value(freq_hz, center_hz);
            let c = cycles_value(freq_hz, center_hz, samp_rate);
            &&& representable(size(c))
            &&& size(size(c) * samp_rate - size(v)) <= size(y * samp_rate - size(v))
            &&& v >= 0 ==> c >= 0
            &&& v < 0 ==> c <= 0
        }),
{
    let v = offset_value(freq_hz, center_hz);
    law_nearest(size(v), samp_rate as int, y);
    lemma_nearest_representable(size(v), samp_rate as int);
}

/// How far the rounded offset can be from the exact one.
proof fn lemma_offset_error(freq_hz: Double, center_hz: u64)
    ensures
        ({
            let x = freq_hz.value() - center_value(center_hz);
            let v = offset_value(freq_hz, center_hz);
            &&& size(v - x) * 0x20_0000_0000_0000 <= size(x)
            &&& x >= 0 ==> v >= 0
            &&& x <= 0 ==> v <= 0
        }),
{
    let x = freq_hz.value() - center_value(center_hz);
    law_rounding_error(size(x), 1);
    lemma_nearest_representable(size(x), 1);
    if x == 0 {
        assert(is_scaled(0, 0, 0));
        lemma_nearest_exact(0);
    }
}

/// The capture window is `[center - Fs/2, center + Fs/2)`, but for what one
/// part in 2^52 of half the sample rate makes at its edges: a channel that is
/// accepted lies below the upper edge and at most so much below the lower one;
/// a channel that lies in the window, and so much below the upper edge, is
/// accepted. What is not a finite number is not accepted, nor is anything at a
/// sample rate of zero. A center of at most 2^53 Hz counts exactly, any other by
/// its binary64 value.
pub proof fn law_window_bounds(freq_hz: Double, center_hz: u64, samp_rate: u32)
    ensures
        center_hz <= 0x20_0000_0000_0000 ==> center_value(center_hz) == center_hz * pow2(1074),
        ({
            let x = freq_hz.value() - center_value(center_hz);
            let h = samp_rate * pow2(1073);
            &&& in_window(freq_hz, center_hz, samp_rate) ==> {
                &&& freq_hz.is_finite()
                &&& samp_rate > 0
                &&& x < h
                &&& (-h - x) * 0x10_0000_0000_0000 <= h
            }
            &&& freq_hz.is_finite() && samp_rate > 0 && -h <= x && x < h && (h - x)
                * 0x10_0000_0000_0000 >= h ==> in_window(freq_hz, center_hz, samp_rate)
        }),
{
    if center_hz <= 0x20_0000_0000_0000 {
        law_center_is_exact(center_hz);
    }
    let x = freq_hz.value() - center_value(center_hz);
    let h = samp_rate * pow2(1073);
    let v = offset_value(freq_hz, center_hz);
    lemma_pow2_pos(1073);
    if samp_rate == 0 {
        assert(h == 0);
    } else {
        assert(h > 0) by (nonlinear_arith)
            requires
                h == samp_rate * pow2(1073),
                samp_rate > 0,
                pow2(1073) > 0,
        ;
        lemma_offset_error(freq_hz, center_hz);
        assert(is_scaled(h, samp_rate as int, 1073));
        if x >= h {
            lemma_nearest_at_least(x, 1, h);
        }
        if -h <= x <= 0 {
            lemma_nearest_at_most(-x, 1, h);
        }
    }
}

/// A tuning word is the residue modulo 2^24 of an integer that stands for the
/// exact frequency of the channel: in tuning steps of 2^-24 of the sample rate
/// it is off from the exact offset `freq_hz - center_hz` by at most half a step
/// and one part in 2^28 of a step, which the binary64 roundings can add. A
/// center of at most 2^53 Hz counts exactly, any other by its binary64 value.
pub proof fn law_word_tracks_frequency(freq_hz: Double, center_hz: u64, samp_rate: u32) -> (w: int)
    requires
        tunable(freq_hz, center_hz, samp_rate),
    ensures
        word_of(freq_hz, center_hz, samp_rate) == w % 0x100_0000,
        -0x80_0000 <= w <= 0x80_0000,
        center_hz <= 0x20_0000_0000_0000 ==> center_value(center_hz) == center_hz * pow2(1074),
        2 * size(
            w * (samp_rate * pow2(1074)) - 0x100_0000 * (freq_hz.value() - center_value(
                center_hz,
            )),
        ) * 0x800_0000 <= 0x800_0001 * (samp_rate * pow2(1074)),
        ({
            let c = cycles_value(freq_hz, center_hz, samp_rate) * 0x100_0000;
            let up = w * pow2(1074) - c;
            (2 * up == pow2(1074) ==> c >= 0) && (2 * up == -pow2(1074) ==> c < 0)
        }),
{
    let w = law_word_is_nearest(freq_hz, center_hz, samp_rate);
    let d = samp_rate as int;
    let u = pow2(1074) as int;
    let t = d * u;
    if center_hz <= 0x20_0000_0000_0000 {
        law_center_is_exact(center_hz);
    }
    let x = freq_hz.value() - center_value(center_hz);
    let v = offset_value(freq_hz, center_hz);
    let c = cycles_value(freq_hz, center_hz, samp_rate);
    lemma2_to64_rest();
    lemma_pow2_pos(1014);
    lemma_pow2_adds(1014, 60);
    lemma_pow2_unfold(1074);
    lemma_offset_error(freq_hz, center_hz);
    law_window_agrees_with_tuning(freq_hz, center_hz, samp_rate);
    law_rounding_error(size(v), d);
    lemma_nearest_representable(size(v), d);
    assert(2 * (d * pow2(1073)) == t) by (nonlinear_arith)
        requires
            u == 2 * pow2(1073),
            t == d * u,
    ;
    assert(2 * size(v) <= t);
    let e1 = size(c * d - v);
    let e2 = size(v - x);
    assert(e1 == distance(nearest_magnitude(size(v), d), size(v), d)) by {
        assert((-nearest_magnitude(size(v), d)) * d == -(nearest_magnitude(size(v), d) * d))
            by (nonlinear_arith);
    }
    assert(d * 0x20_0000_0000_0000 <= t) by (nonlinear_arith)
        requires
            t == d * u,
            u >= 0x20_0000_0000_0000,
            d > 0,
    ;
    assert(e1 * 0x20_0000_0000_0000 <= t);
    assert(size(x) <= size(v) + e2);
    assert(e2 * 0x20_0000_0000_0000 <= t);
    let f = w * u - c * 0x100_0000;
    assert(2 * size(f) <= u);
    let fd = w * t - (c * d) * 0x100_0000;
    assert(fd == f * d) by (nonlinear_arith)
        requires
            f == w * u - c * 0x100_0000,
            fd == w * t - (c * d) * 0x100_0000,
            t == d * u,
    ;
    assert(2 * size(fd) <= t) by (nonlinear_arith)
        requires
            fd == f * d,
            t == d * u,
            2 * f <= u,
            -2 * f <= u,
            d > 0,
            size(fd) == fd || size(fd) == -fd,
    ;
    assert(size(w * t - 0x100_0000 * x) <= size(fd) + 0x100_0000 * e1 + 0x100_0000 * e2);
    w
}

/// Where the offset is a whole number of hertz and half-way between two tuning
/// steps, no rounding takes part in the offset in cycles per sample.
proof fn lemma_half_step_is_exact(
    freq_hz: Double,
    center_hz: u64,
    samp_rate: u32,
    offset: int,
    odd: int,
)
    requires
        samp_rate > 0,
        freq_hz.value() - center_value(center_hz) == offset * pow2(1074),
        0x200_0000 * offset == odd * samp_rate,
        -0x100_0001 <= odd <= 0x100_0001,
        odd != 0,
    ensures
        cycles_value(freq_hz, center_hz, samp_rate) == odd * pow2(1049),
        offset < 0 <==> odd < 0,
{
    let d = samp_rate as int;
    let p = pow2(1049) as int;
    let u = pow2(1074) as int;
    lemma2_to64();
    lemma_pow2_pos(1049);
    lemma_pow2_adds(25, 1049);
    lemma_pow2_pos(1074);
    let v = offset * u;
    let y = odd * p;
    assert(v == y * d) by (nonlinear_arith)
        requires
            v == offset * u,
            u == 0x200_0000 * p,
            0x200_0000 * offset == odd * d,
            y == odd * p,
    ;
    assert(odd < 0 <==> odd * d < 0) by (nonlinear_arith)
        requires
            d > 0,
    ;
    let n = size(offset);
    assert(n < 0x1_0000_0000_0000) by {
        assert(size(odd * d) <= 0x100_0001 * d) by (nonlinear_arith)
            requires
                -0x100_0001 <= odd <= 0x100_0001,
                d > 0,
                size(odd * d) == odd * d || size(odd * d) == -(odd * d),
        ;
    }
    assert(size(v) == n * u && (v < 0 <==> offset < 0)) by (nonlinear_arith)
        requires
            v == offset * u,
            n == (if offset < 0 { -offset } else { offset }),
            size(v) == (if v < 0 { -v } else { v }),
            u > 0,
    ;
    assert(is_scaled(size(v), n, 1074));
    lemma_nearest_exact(size(v));
    assert(offset_value(freq_hz, center_hz) == v);
    assert(size(y) == size(odd) * p && (y < 0 <==> odd < 0)) by (nonlinear_arith)
        requires
            y == odd * p,
            size(odd) == (if odd < 0 { -odd } else { odd }),
            size(y) == (if y < 0 { -y } else { y }),
            p > 0,
    ;
    assert(is_scaled(size(y), size(odd), 1049));
    assert(size(v) == size(y) * d) by (nonlinear_arith)
        requires
            v == y * d,
            size(v) == (if v < 0 { -v } else { v }),
            size(y) == (if y < 0 { -y } else { y }),
            d > 0,
    ;
    lemma_nearest_at_least(size(v), d, size(y));
    lemma_nearest_at_most(size(v), d, size(y));
}

/// For a channel on a whole number of hertz, and a sample rate below 2^27 Hz,
/// the tuning word stands for the integer that is nearest to 2^24 times the
/// exact offset over the sample rate, and for the one farther from zero where
/// two are.
pub proof fn law_whole_hertz_word(freq_hz: Double, hz: int, center_hz: u64, samp_rate: u32) -> (w:
    int)
    requires
        tunable(freq_hz, center_hz, samp_rate),
        freq_hz.value() == hz * pow2(1074),
        center_hz <= 0x20_0000_0000_0000,
        samp_rate < 0x800_0000,
    ensures
        word_of(freq_hz, center_hz, samp_rate) == w % 0x100_0000,
        -0x80_0000 <= w <= 0x80_0000,
        2 * size(w * samp_rate - 0x100_0000 * (hz - center_hz)) <= samp_rate,
        2 * (w * samp_rate - 0x100_0000 * (hz - center_hz)) == samp_rate ==> hz >= center_hz,
        2 * (w * samp_rate - 0x100_0000 * (hz - center_hz)) == -samp_rate ==> hz < center_hz,
{
    let w = law_word_tracks_frequency(freq_hz, center_hz, samp_rate);
    let u = pow2(1074) as int;
    let k = w * samp_rate - 0x100_0000 * (hz - center_hz);
    lemma_pow2_pos(1074);
    assert(w * (samp_rate * u) - 0x100_0000 * (hz * u - center_hz * u) == k * u)
        by (nonlinear_arith)
        requires
            k == w * samp_rate - 0x100_0000 * (hz - center_hz),
    ;
    assert(size(k * u) == size(k) * u) by (nonlinear_arith)
        requires
            u > 0,
            size(k * u) == (if k * u < 0 { -(k * u) } else { k * u }),
            size(k) == (if k < 0 { -k } else { k }),
    ;
    assert(2 * size(k) * 0x800_0000 <= 0x800_0001 * samp_rate) by (nonlinear_arith)
        requires
            2 * (size(k) * u) * 0x800_0000 <= 0x800_0001 * (samp_rate * u),
            u > 0,
    ;
    if 2 * k == samp_rate || 2 * k == -samp_rate {
        let offset = hz - center_hz;
        let side: int = if 2 * k == samp_rate { 1 } else { -1 };
        let odd = 2 * w - side;
        let c = cycles_value(freq_hz, center_hz, samp_rate) * 0x100_0000;
        assert(0x200_0000 * offset == odd * samp_rate) by (nonlinear_arith)
            requires
                2 * k == side * samp_rate,
                k == w * samp_rate - 0x100_0000 * offset,
                odd == 2 * w - side,
        ;
        assert(hz * u - center_hz * u == offset * u) by (nonlinear_arith)
            requires
                offset == hz - center_hz,
        ;
        lemma_half_step_is_exact(freq_hz, center_hz, samp_rate, offset, odd);
        let p = pow2(1049) as int;
        lemma2_to64();
        lemma_pow2_pos(1049);
        lemma_pow2_adds(25, 1049);
        assert(2 * (w * u - c) == side * u && (c < 0 <==> odd < 0)) by (nonlinear_arith)
            requires
                c == (odd * p) * 0x100_0000,
                u == 0x200_0000 * p,
                odd == 2 * w - side,
                p > 0,
        ;
    }
    w
}

/// Rounding does not change the order.
proof fn lemma_rounding_keeps_order(n: int, m: int)
    requires
        0 <= n <= m,
    ensures
        nearest_magnitude(n, 1) <= nearest_magnitude(m, 1),
{
    let a = nearest_magnitude(n, 1);
    let b = nearest_magnitude(m, 1);
    lemma_nearest_representable(n, 1);
    lemma_nearest_representable(m, 1);
    law_nearest(n, 1, b);
    law_nearest(m, 1, a);
}

/// The capture window has no gaps: a number between two channels that lie in it
/// lies in it.
pub proof fn law_window_has_no_gaps(
    low: Double,
    freq_hz: Double,
    high: Double,
    center_hz: u64,
    samp_rate: u32,
)
    requires
        in_window(low, center_hz, samp_rate),
        in_window(high, center_hz, samp_rate),
        freq_hz.is_finite(),
        low.value() <= freq_hz.value() <= high.value(),
    ensures
        in_window(freq_hz, center_hz, samp_rate),
{
    let c = center_value(center_hz);
    let x = freq_hz.value() - c;
    let a = low.value() - c;
    let b = high.value() - c;
    lemma_nearest_representable(size(a), 1);
    lemma_nearest_representable(size(x), 1);
    lemma_nearest_representable(size(b), 1);
    if x < 0 {
        lemma_rounding_keeps_order(size(x), size(a));
        if b <= 0 {
            lemma_rounding_keeps_order(size(b), size(x));
        }
    } else {
        lemma_rounding_keeps_order(size(x), size(b));
        if a >= 0 {
            lemma_rounding_keeps_order(size(a), size(x));
        }
    }
}

/// A channel whose offset is rounded onto an edge of the window counts as on
/// it: the lower edge belongs to the window, the upper one does not.
pub proof fn law_window_edges(freq_hz: Double, center_hz: u64, samp_rate: u32)
    requires
        freq_hz.is_finite(),
        samp_rate > 0,
    ensures
        offset_value(freq_hz, center_hz) == -(samp_rate * pow2(1073)) ==> in_window(
            freq_hz,
            center_hz,
            samp_rate,
        ),
        offset_value(freq_hz, center_hz) == samp_rate * pow2(1073) ==> !in_window(
            freq_hz,
            center_hz,
            samp_rate,
        ),
{
    let h = samp_rate * pow2(1073);
    lemma_pow2_pos(1073);
    assert(h > 0) by (nonlinear_arith)
        requires
            h == samp_rate * pow2(1073),
            samp_rate > 0,
            pow2(1073) > 0,
    ;
}

} // verus!

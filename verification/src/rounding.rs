//! Rounding to the nearest binary64 value, as integer arithmetic.
//!
//! Every finite binary64 value is a whole multiple of the smallest positive
//! one, 2^-1074. Measured in that unit the finite values are the integers
//! `a * 2^b` whose significand `a` has at most 53 bits, and the result of a
//! correctly rounded operation is an integer that depends on the exact
//! quotient `n / d` alone.

use vstd::arithmetic::div_mod::{
    lemma_fundamental_div_mod, lemma_fundamental_div_mod_converse,
};
use vstd::arithmetic::power2::{
    lemma2_to64, lemma_pow2_adds, lemma_pow2_pos, lemma_pow2_unfold, pow2,
};
use vstd::prelude::*;

verus! {

/// One more than the largest 53-bit significand.
pub const SIGNIFICAND_LIMIT: u64 = 0x20_0000_0000_0000;

/// The integer nearest to `n / d`; of two that are equally near, the even one.
pub open spec fn round_half_even(n: int, d: int) -> int {
    let q = n / d;
    let r = n % d;
    if 2 * r < d || (2 * r == d && q % 2 == 0) {
        q
    } else {
        q + 1
    }
}

/// The integer nearest to `n / d`; of two that are equally near, the one
/// farther from zero.
pub open spec fn round_half_away(n: int, d: int) -> int {
    if n < 0 {
        -((-2 * n + d) / (2 * d))
    } else {
        (2 * n + d) / (2 * d)
    }
}

/// The binary64 value nearest to the non-negative quotient `n / d`, ties to
/// even: the quotient is halved until its whole part fits a significand, then
/// rounded to an integer and scaled back.
pub open spec fn nearest_magnitude(n: int, d: int) -> int
    decreases n - d,
{
    if d <= 0 || n < d * SIGNIFICAND_LIMIT {
        round_half_even(n, d)
    } else {
        2 * nearest_magnitude(n, 2 * d)
    }
}

/// The binary64 value nearest to `n / d`, ties to even. Rounding is symmetric
/// about zero. Overflow does not occur on the quotients taken here: the
/// difference of a finite value and a 64-bit count is finite.
pub open spec fn nearest(n: int, d: int) -> int {
    if n < 0 {
        -nearest_magnitude(-n, d)
    } else {
        nearest_magnitude(n, d)
    }
}

/// Whether the non-negative integer `y` is the magnitude of a binary64 value.
pub open spec fn representable(y: int) -> bool {
    exists|a: int, b: nat| #[trigger] is_scaled(y, a, b)
}

/// Whether `y` is the significand `a` times two to the power of `b`.
pub open spec fn is_scaled(y: int, a: int, b: nat) -> bool {
    0 <= a <= SIGNIFICAND_LIMIT && y == a * pow2(b)
}

/// `round_half_even` between the integers `lo` and `hi` when the quotient is.
pub(crate) proof fn lemma_round_bounds(n: int, d: int, lo: int, hi: int)
    requires
        d > 0,
        lo * d <= n <= hi * d,
    ensures
        lo <= round_half_even(n, d) <= hi,
{
    let q = n / d;
    let r = n % d;
    lemma_fundamental_div_mod(n, d);
    assert(n == d * q + r && 0 <= r < d);
    assert(lo <= q) by (nonlinear_arith)
        requires
            lo * d <= n,
            n == d * q + r,
            r < d,
            d > 0,
    ;
    assert(q <= hi) by (nonlinear_arith)
        requires
            n <= hi * d,
            n == d * q + r,
            0 <= r,
            d > 0,
    ;
    if q == hi {
        assert(r == 0) by (nonlinear_arith)
            requires
                n <= hi * d,
                n == d * q + r,
                0 <= r,
                q == hi,
        ;
    }
}

/// A quotient keeps its rounding when both sides grow by one factor.
pub(crate) proof fn lemma_round_ratio(n: int, d: int, c: int)
    requires
        d > 0,
        c > 0,
    ensures
        round_half_even(c * n, c * d) == round_half_even(n, d),
{
    let q = n / d;
    let r = n % d;
    lemma_fundamental_div_mod(n, d);
    assert(c * n == (c * d) * q + c * r) by (nonlinear_arith)
        requires
            n == d * q + r,
    ;
    assert(0 <= c * r < c * d) by (nonlinear_arith)
        requires
            0 <= r < d,
            c > 0,
    ;
    lemma_fundamental_div_mod_converse(c * n, c * d, q, c * r);
    assert(2 * r < d <==> 2 * (c * r) < c * d) by (nonlinear_arith)
        requires
            c > 0,
    ;
    assert(2 * r == d <==> 2 * (c * r) == c * d) by (nonlinear_arith)
        requires
            c > 0,
    ;
}

/// The scale at which a quotient is rounded: the smallest power of two that
/// brings it below the significand limit.
pub(crate) proof fn lemma_scale(n: int, d: int) -> (k: nat)
    requires
        n >= 0,
        d > 0,
    ensures
        nearest_magnitude(n, d) == pow2(k) * round_half_even(n, d * pow2(k)),
        n < d * pow2(k) * SIGNIFICAND_LIMIT,
        k > 0 ==> n >= d * pow2((k - 1) as nat) * SIGNIFICAND_LIMIT,
    decreases n - d,
{
    lemma2_to64();
    if n < d * SIGNIFICAND_LIMIT {
        assert(d * pow2(0) == d);
        0
    } else {
        let j = lemma_scale(n, 2 * d);
        let k = j + 1;
        lemma_pow2_unfold(k);
        assert(2 * d * pow2(j) == d * pow2(k)) by (nonlinear_arith)
            requires
                pow2(k) == 2 * pow2(j),
        ;
        assert(2 * (pow2(j) * round_half_even(n, d * pow2(k))) == pow2(k) * round_half_even(
            n,
            d * pow2(k),
        )) by (nonlinear_arith)
            requires
                pow2(k) == 2 * pow2(j),
        ;
        if j == 0 {
            assert(d * pow2(0) == d);
        } else {
            let i = (j - 1) as nat;
            lemma_pow2_unfold(j);
            assert(2 * d * pow2(i) == d * pow2(j)) by (nonlinear_arith)
                requires
                    pow2(j) == 2 * pow2(i),
            ;
        }
        k
    }
}

/// Rounding depends on the quotient alone.
pub(crate) proof fn lemma_ratio(n: int, d: int, c: int)
    requires
        n >= 0,
        d > 0,
        c > 0,
    ensures
        nearest_magnitude(c * n, c * d) == nearest_magnitude(n, d),
    decreases n - d,
{
    assert(c * d > 0 && c * n >= 0) by (nonlinear_arith)
        requires
            c > 0,
            d > 0,
            n >= 0,
    ;
    assert(c * n < c * d * SIGNIFICAND_LIMIT <==> n < d * SIGNIFICAND_LIMIT) by (nonlinear_arith)
        requires
            c > 0,
    ;
    if n < d * SIGNIFICAND_LIMIT {
        lemma_round_ratio(n, d, c);
    } else {
        lemma_ratio(n, 2 * d, c);
        assert(c * (2 * d) == 2 * (c * d)) by (nonlinear_arith);
    }
}

/// A quotient that fills the significand keeps its rounding when scaled up.
pub(crate) proof fn lemma_scale_up(n: int, d: int, j: nat)
    requires
        d > 0,
        2 * n >= d * SIGNIFICAND_LIMIT,
    ensures
        nearest_magnitude(n * pow2(j), d) == nearest_magnitude(n, d) * pow2(j),
    decreases j,
{
    lemma2_to64();
    assert(n >= 0) by (nonlinear_arith)
        requires
            d > 0,
            2 * n >= d * SIGNIFICAND_LIMIT,
    ;
    if j == 0 {
    } else {
        let i = (j - 1) as nat;
        lemma_scale_up(n, d, i);
        lemma_pow2_unfold(j);
        lemma_pow2_pos(i);
        let x = n * pow2(i);
        assert(n * pow2(j) == 2 * x) by (nonlinear_arith)
            requires
                x == n * pow2(i),
                pow2(j) == 2 * pow2(i),
        ;
        assert(x >= n) by (nonlinear_arith)
            requires
                x == n * pow2(i),
                pow2(i) >= 1,
                n >= 0,
        ;
        lemma_ratio(x, d, 2);
        assert(nearest_magnitude(2 * x, d) == 2 * nearest_magnitude(2 * x, 2 * d));
        assert(2 * (nearest_magnitude(n, d) * pow2(i)) == nearest_magnitude(n, d) * pow2(j))
            by (nonlinear_arith)
            requires
                pow2(j) == 2 * pow2(i),
        ;
    }
}

/// A representable value of at least half the significand limit at scale
/// `2^k` is a multiple of that scale.
proof fn lemma_on_grid(y: int, k: nat) -> (z: int)
    requires
        representable(y),
        k > 0,
        y >= pow2((k - 1) as nat) * SIGNIFICAND_LIMIT,
    ensures
        y == z * pow2(k),
{
    let (a, b) = choose|a: int, b: nat| #[trigger] is_scaled(y, a, b);
    let i = (k - 1) as nat;
    lemma_pow2_unfold(k);
    lemma_pow2_pos(i);
    lemma_pow2_pos(b);
    if b < i {
        let e = (i - b) as nat;
        lemma_pow2_adds(b, e);
        lemma_pow2_unfold(e);
        lemma_pow2_pos((e - 1) as nat);
        assert(a * pow2(b) < pow2(i) * SIGNIFICAND_LIMIT) by (nonlinear_arith)
            requires
                a <= SIGNIFICAND_LIMIT,
                pow2(i) == pow2(b) * pow2(e),
                pow2(e) >= 2,
                pow2(b) >= 1,
        ;
        assert(false);
        0
    } else if b == i {
        assert(a >= SIGNIFICAND_LIMIT) by (nonlinear_arith)
            requires
                a * pow2(i) >= pow2(i) * SIGNIFICAND_LIMIT,
                pow2(i) >= 1,
        ;
        let z: int = SIGNIFICAND_LIMIT as int / 2;
        assert(y == z * pow2(k)) by (nonlinear_arith)
            requires
                y == a * pow2(i),
                a == 2 * z,
                pow2(k) == 2 * pow2(i),
        ;
        z
    } else {
        let e = (b - k) as nat;
        lemma_pow2_adds(k, e);
        let z = a * pow2(e);
        assert(y == z * pow2(k)) by (nonlinear_arith)
            requires
                y == a * pow2(b),
                pow2(b) == pow2(k) * pow2(e),
                z == a * pow2(e),
        ;
        z
    }
}

/// A rounded quotient is representable.
pub(crate) proof fn lemma_nearest_representable(n: int, d: int)
    requires
        n >= 0,
        d > 0,
    ensures
        nearest_magnitude(n, d) >= 0,
        representable(nearest_magnitude(n, d)),
{
    let k = lemma_scale(n, d);
    lemma_pow2_pos(k);
    let g = d * pow2(k);
    assert(g > 0) by (nonlinear_arith)
        requires
            g == d * pow2(k),
            d > 0,
            pow2(k) >= 1,
    ;
    assert(SIGNIFICAND_LIMIT * g == g * SIGNIFICAND_LIMIT);
    lemma_round_bounds(n, g, 0, SIGNIFICAND_LIMIT as int);
    let a = round_half_even(n, g);
    assert(pow2(k) * a == a * pow2(k)) by (nonlinear_arith);
    assert(a * pow2(k) >= 0) by (nonlinear_arith)
        requires
            a >= 0,
            pow2(k) >= 1,
    ;
    assert(is_scaled(nearest_magnitude(n, d), a, k));
}

/// A quotient at most a representable value rounds to at most that value.
pub(crate) proof fn lemma_nearest_at_most(n: int, d: int, y: int)
    requires
        n >= 0,
        d > 0,
        representable(y),
        n <= y * d,
    ensures
        nearest_magnitude(n, d) <= y,
{
    let k = lemma_scale(n, d);
    lemma_pow2_pos(k);
    let g = d * pow2(k);
    assert(g > 0) by (nonlinear_arith)
        requires
            g == d * pow2(k),
            d > 0,
            pow2(k) >= 1,
    ;
    let a = round_half_even(n, g);
    if y >= pow2(k) * SIGNIFICAND_LIMIT {
        assert(SIGNIFICAND_LIMIT * g == g * SIGNIFICAND_LIMIT);
        lemma_round_bounds(n, g, 0, SIGNIFICAND_LIMIT as int);
        assert(pow2(k) * a <= pow2(k) * SIGNIFICAND_LIMIT) by (nonlinear_arith)
            requires
                a <= SIGNIFICAND_LIMIT,
                pow2(k) >= 1,
        ;
    } else if k == 0 {
        lemma2_to64();
        assert(0 * g <= n);
        lemma_round_bounds(n, g, 0, y);
    } else {
        let i = (k - 1) as nat;
        assert(y >= pow2(i) * SIGNIFICAND_LIMIT) by (nonlinear_arith)
            requires
                n <= y * d,
                n >= d * pow2(i) * SIGNIFICAND_LIMIT,
                d > 0,
        ;
        let z = lemma_on_grid(y, k);
        assert(n <= z * g) by (nonlinear_arith)
            requires
                n <= y * d,
                y == z * pow2(k),
                g == d * pow2(k),
        ;
        lemma_round_bounds(n, g, 0, z);
        assert(pow2(k) * a <= z * pow2(k)) by (nonlinear_arith)
            requires
                a <= z,
                pow2(k) >= 1,
        ;
    }
}

/// A quotient at least a representable value rounds to at least that value.
pub(crate) proof fn lemma_nearest_at_least(n: int, d: int, y: int)
    requires
        n >= 0,
        d > 0,
        representable(y),
        n >= y * d,
    ensures
        nearest_magnitude(n, d) >= y,
{
    let k = lemma_scale(n, d);
    lemma_pow2_pos(k);
    let g = d * pow2(k);
    assert(g > 0) by (nonlinear_arith)
        requires
            g == d * pow2(k),
            d > 0,
            pow2(k) >= 1,
    ;
    let top = n / g + 1;
    lemma_fundamental_div_mod(n, g);
    assert(n <= top * g) by (nonlinear_arith)
        requires
            n == g * (n / g) + n % g,
            n % g < g,
            top == n / g + 1,
    ;
    let a = round_half_even(n, g);
    if k == 0 {
        lemma2_to64();
        lemma_round_bounds(n, g, y, top);
    } else {
        let i = (k - 1) as nat;
        lemma_pow2_unfold(k);
        let half: int = SIGNIFICAND_LIMIT as int / 2;
        if y <= pow2(i) * SIGNIFICAND_LIMIT {
            assert(half * g <= n) by (nonlinear_arith)
                requires
                    n >= d * pow2(i) * SIGNIFICAND_LIMIT,
                    g == d * pow2(k),
                    pow2(k) == 2 * pow2(i),
                    2 * half == SIGNIFICAND_LIMIT,
            ;
            lemma_round_bounds(n, g, half, top);
            assert(pow2(k) * a >= pow2(i) * SIGNIFICAND_LIMIT) by (nonlinear_arith)
                requires
                    a >= half,
                    2 * half == SIGNIFICAND_LIMIT,
                    pow2(k) == 2 * pow2(i),
                    pow2(k) >= 1,
            ;
        } else {
            let z = lemma_on_grid(y, k);
            assert(z * g <= n) by (nonlinear_arith)
                requires
                    n >= y * d,
                    y == z * pow2(k),
                    g == d * pow2(k),
            ;
            lemma_round_bounds(n, g, z, top);
            assert(pow2(k) * a >= z * pow2(k)) by (nonlinear_arith)
                requires
                    a >= z,
                    pow2(k) >= 1,
            ;
        }
    }
}

/// A representable value is its own rounding.
pub(crate) proof fn lemma_nearest_exact(y: int)
    requires
        y >= 0,
        representable(y),
    ensures
        nearest_magnitude(y, 1) == y,
{
    lemma_nearest_at_most(y, 1, y);
    lemma_nearest_at_least(y, 1, y);
}

/// A whole number has the same rounding in every smaller unit.
pub(crate) proof fn lemma_unit(n: int, j: nat)
    requires
        n >= 0,
    ensures
        nearest_magnitude(n * pow2(j), 1) == nearest_magnitude(n, 1) * pow2(j),
{
    if 2 * n >= SIGNIFICAND_LIMIT {
        lemma_scale_up(n, 1, j);
    } else {
        lemma2_to64();
        lemma_pow2_pos(j);
        assert(is_scaled(n, n, 0));
        assert(is_scaled(n * pow2(j), n, j));
        assert(n * pow2(j) >= 0) by (nonlinear_arith)
            requires
                n >= 0,
                pow2(j) >= 1,
        ;
        lemma_nearest_exact(n);
        lemma_nearest_exact(n * pow2(j));
    }
}

/// A quotient strictly between the integers `a` and `a + 1` is rounded on an
/// even grid by `a` alone.
proof fn lemma_round_between(n: int, d: int, a: int, h: int)
    requires
        a >= 0,
        d > 0,
        h > 0,
        a * d < n < (a + 1) * d,
    ensures
        round_half_even(n, d * (2 * h)) == if a % (2 * h) < h {
            a / (2 * h)
        } else {
            a / (2 * h) + 1
        },
{
    let t = 2 * h;
    let q = a / t;
    let p = a % t;
    lemma_fundamental_div_mod(a, t);
    let e = n - a * d;
    let r = p * d + e;
    assert(0 < e < d) by (nonlinear_arith)
        requires
            e == n - a * d,
            a * d < n < (a + 1) * d,
    ;
    assert(n == (d * t) * q + r) by (nonlinear_arith)
        requires
            a == t * q + p,
            e == n - a * d,
            r == p * d + e,
    ;
    assert(0 <= r < d * t) by (nonlinear_arith)
        requires
            0 <= p < t,
            0 < e < d,
            r == p * d + e,
    ;
    lemma_fundamental_div_mod_converse(n, d * t, q, r);
    if p < h {
        assert(2 * r < d * t) by (nonlinear_arith)
            requires
                p + 1 <= h,
                e < d,
                r == p * d + e,
                t == 2 * h,
                d > 0,
        ;
    } else {
        assert(2 * r > d * t) by (nonlinear_arith)
            requires
                p >= h,
                e > 0,
                r == p * d + e,
                t == 2 * h,
                d > 0,
        ;
    }
}

/// A large quotient strictly between two integers rounds as their midpoint.
pub(crate) proof fn lemma_between(n: int, d: int, a: int)
    requires
        d > 0,
        a >= SIGNIFICAND_LIMIT,
        a * d < n < (a + 1) * d,
    ensures
        nearest_magnitude(n, d) == nearest_magnitude(2 * a + 1, 2),
{
    assert(n >= d * SIGNIFICAND_LIMIT) by (nonlinear_arith)
        requires
            a >= SIGNIFICAND_LIMIT,
            a * d < n,
            d > 0,
    ;
    let k = lemma_scale(n, d);
    let l = lemma_scale(2 * a + 1, 2);
    lemma2_to64();
    if k == 0 {
        assert(d * pow2(0) == d);
        assert(false);
    }
    if l == 0 {
        assert(false);
    }
    let kt = pow2(k) * SIGNIFICAND_LIMIT;
    let kb = pow2((k - 1) as nat) * SIGNIFICAND_LIMIT;
    let lt = pow2(l) * SIGNIFICAND_LIMIT;
    let lb = pow2((l - 1) as nat) * SIGNIFICAND_LIMIT;
    assert(kb <= a < kt) by (nonlinear_arith)
        requires
            n < d * pow2(k) * SIGNIFICAND_LIMIT,
            n >= d * pow2((k - 1) as nat) * SIGNIFICAND_LIMIT,
            a * d < n < (a + 1) * d,
            d > 0,
            kt == pow2(k) * SIGNIFICAND_LIMIT,
            kb == pow2((k - 1) as nat) * SIGNIFICAND_LIMIT,
    ;
    assert(lb <= a < lt);
    if k < l {
        lemma_pow2_adds(k, (l - 1 - k) as nat);
        lemma_pow2_pos((l - 1 - k) as nat);
        assert(kt <= lb) by (nonlinear_arith)
            requires
                kt == pow2(k) * SIGNIFICAND_LIMIT,
                lb == pow2((l - 1) as nat) * SIGNIFICAND_LIMIT,
                pow2((l - 1) as nat) == pow2(k) * pow2((l - 1 - k) as nat),
                pow2((l - 1 - k) as nat) >= 1,
        ;
        assert(false);
    }
    if l < k {
        lemma_pow2_adds(l, (k - 1 - l) as nat);
        lemma_pow2_pos((k - 1 - l) as nat);
        assert(lt <= kb) by (nonlinear_arith)
            requires
                lt == pow2(l) * SIGNIFICAND_LIMIT,
                kb == pow2((k - 1) as nat) * SIGNIFICAND_LIMIT,
                pow2((k - 1) as nat) == pow2(l) * pow2((k - 1 - l) as nat),
                pow2((k - 1 - l) as nat) >= 1,
        ;
        assert(false);
    }
    let h = pow2((k - 1) as nat);
    lemma_pow2_pos((k - 1) as nat);
    lemma_pow2_unfold(k);
    lemma_round_between(n, d, a, h as int);
    lemma_round_between(2 * a + 1, 2, a, h as int);
}

/// The distance of a value from a quotient, times the quotient's denominator.
pub open spec fn distance(y: int, n: int, d: int) -> int {
    if y * d < n {
        n - y * d
    } else {
        y * d - n
    }
}

/// No integer is nearer to a quotient than its rounding.
proof fn lemma_round_nearest(n: int, d: int, z: int)
    requires
        d > 0,
    ensures
        distance(round_half_even(n, d), n, d) <= distance(z, n, d),
{
    let q = n / d;
    let r = n % d;
    lemma_fundamental_div_mod(n, d);
    assert(q * d == n - r) by (nonlinear_arith)
        requires
            n == d * q + r,
    ;
    assert((q + 1) * d == q * d + d) by (nonlinear_arith);
    if z <= q {
        assert(z * d <= q * d) by (nonlinear_arith)
            requires
                z <= q,
                d > 0,
        ;
    } else {
        assert(z * d >= (q + 1) * d) by (nonlinear_arith)
            requires
                z >= q + 1,
                d > 0,
        ;
    }
}

/// No representable value is nearer to a quotient than the one it rounds to.
pub proof fn law_nearest(n: int, d: int, y: int)
    requires
        n >= 0,
        d > 0,
        y >= 0,
        representable(y),
    ensures
        representable(nearest_magnitude(n, d)),
        distance(nearest_magnitude(n, d), n, d) <= distance(y, n, d),
{
    lemma_nearest_representable(n, d);
    let k = lemma_scale(n, d);
    lemma_pow2_pos(k);
    lemma2_to64();
    let p = pow2(k) as int;
    let g = d * p;
    let a = round_half_even(n, g);
    assert(g > 0) by (nonlinear_arith)
        requires
            g == d * p,
            d > 0,
            p >= 1,
    ;
    assert((p * a) * d == a * g) by (nonlinear_arith)
        requires
            g == d * p,
    ;
    if k > 0 && y < pow2((k - 1) as nat) * SIGNIFICAND_LIMIT {
        let i = (k - 1) as nat;
        let z = SIGNIFICAND_LIMIT as int / 2;
        lemma_pow2_unfold(k);
        lemma_round_nearest(n, g, z);
        assert(y * d < z * g <= n) by (nonlinear_arith)
            requires
                y < pow2(i) * SIGNIFICAND_LIMIT,
                n >= d * pow2(i) * SIGNIFICAND_LIMIT,
                g == d * p,
                p == 2 * pow2(i),
                SIGNIFICAND_LIMIT == 2 * z,
                d > 0,
        ;
    } else {
        let z = if k == 0 { y } else { lemma_on_grid(y, k) };
        lemma_round_nearest(n, g, z);
        assert(y * d == z * g) by (nonlinear_arith)
            requires
                y == z * p,
                g == d * p,
        ;
    }
}

/// A rounded integer is off by at most one half.
proof fn lemma_round_error(n: int, d: int)
    requires
        d > 0,
    ensures
        2 * distance(round_half_even(n, d), n, d) <= d,
{
    let q = n / d;
    let r = n % d;
    lemma_fundamental_div_mod(n, d);
    assert(q * d == n - r) by (nonlinear_arith)
        requires
            n == d * q + r,
    ;
    assert((q + 1) * d == q * d + d) by (nonlinear_arith);
}

/// A rounded quotient is off by at most half a unit or by one part in 2^53; a
/// rounded integer by at most one part in 2^53.
pub proof fn law_rounding_error(n: int, d: int)
    requires
        n >= 0,
        d > 0,
    ensures
        2 * distance(nearest_magnitude(n, d), n, d) <= d || distance(
            nearest_magnitude(n, d),
            n,
            d,
        ) * 0x20_0000_0000_0000 <= n,
        d == 1 ==> distance(nearest_magnitude(n, d), n, d) * 0x20_0000_0000_0000 <= n,
{
    let k = lemma_scale(n, d);
    lemma_pow2_pos(k);
    lemma2_to64();
    let p = pow2(k) as int;
    let g = d * p;
    let a = round_half_even(n, g);
    assert(g > 0) by (nonlinear_arith)
        requires
            g == d * p,
            d > 0,
            p >= 1,
    ;
    assert((p * a) * d == a * g) by (nonlinear_arith)
        requires
            g == d * p,
    ;
    lemma_round_error(n, g);
    let e = distance(nearest_magnitude(n, d), n, d);
    assert(e == distance(a, n, g));
    if k == 0 {
        assert(g == d) by (nonlinear_arith)
            requires
                g == d * p,
                p == 1,
        ;
    } else {
        let i = (k - 1) as nat;
        lemma_pow2_unfold(k);
        let h = d * pow2(i);
        assert(g == 2 * h) by (nonlinear_arith)
            requires
                g == d * p,
                p == 2 * pow2(i),
                h == d * pow2(i),
        ;
        assert(d * pow2(i) * SIGNIFICAND_LIMIT == h * SIGNIFICAND_LIMIT);
    }
}

/// Of two representable values that are equally near to a quotient, the
/// rounding is the one that is a whole multiple of twice their distance.
pub proof fn law_ties_to_even(n: int, d: int, y: int)
    requires
        n >= 0,
        d > 0,
        y >= 0,
        representable(y),
        y != nearest_magnitude(n, d),
        distance(y, n, d) == distance(nearest_magnitude(n, d), n, d),
    ensures
        ({
            let r = nearest_magnitude(n, d);
            let gap = if r < y {
                y - r
            } else {
                r - y
            };
            r % (2 * gap) == 0
        }),
{
    let k = lemma_scale(n, d);
    lemma_pow2_pos(k);
    lemma2_to64();
    let p = pow2(k) as int;
    let g = d * p;
    let a = round_half_even(n, g);
    let x = nearest_magnitude(n, d);
    assert(g > 0) by (nonlinear_arith)
        requires
            g == d * p,
            d > 0,
            p >= 1,
    ;
    assert((p * a) * d == a * g) by (nonlinear_arith)
        requires
            g == d * p,
    ;
    if k > 0 && y < pow2((k - 1) as nat) * SIGNIFICAND_LIMIT {
        let i = (k - 1) as nat;
        let z = SIGNIFICAND_LIMIT as int / 2;
        lemma_pow2_unfold(k);
        lemma_round_nearest(n, g, z);
        assert(y * d < z * g <= n) by (nonlinear_arith)
            requires
                y < pow2(i) * SIGNIFICAND_LIMIT,
                n >= d * pow2(i) * SIGNIFICAND_LIMIT,
                g == d * p,
                p == 2 * pow2(i),
                SIGNIFICAND_LIMIT == 2 * z,
                d > 0,
        ;
        assert(false);
    } else {
        let z = if k == 0 { y } else { lemma_on_grid(y, k) };
        assert(y * d == z * g) by (nonlinear_arith)
            requires
                y == z * p,
                g == d * p,
        ;
        let q = n / g;
        let r = n % g;
        lemma_fundamental_div_mod(n, g);
        assert(q * g == n - r) by (nonlinear_arith)
            requires
                n == g * q + r,
        ;
        assert((q + 1) * g == q * g + g) by (nonlinear_arith);
        assert(z != a) by {
            if z == a {
                assert(z * p == p * a) by (nonlinear_arith)
                    requires
                        z == a,
                ;
            }
        }
        if z <= q - 1 {
            assert(z * g <= q * g - g) by (nonlinear_arith)
                requires
                    z <= q - 1,
                    g > 0,
            ;
        }
        if z >= q + 2 {
            assert(z * g >= q * g + 2 * g) by (nonlinear_arith)
                requires
                    z >= q + 2,
                    g > 0,
            ;
        }
        assert(z == q || z == q + 1);
        assert(2 * r == g);
        assert(a % 2 == 0);
        let h = a / 2;
        let gap = if x < y { y - x } else { x - y };
        assert(gap == p) by (nonlinear_arith)
            requires
                x == p * a,
                y == z * p,
                z == a + 1 || z == a - 1,
                gap == (if x < y { y - x } else { x - y }),
                p >= 1,
        ;
        assert(x == (2 * gap) * h) by (nonlinear_arith)
            requires
                x == p * a,
                a == 2 * h,
                gap == p,
        ;
        lemma_fundamental_div_mod_converse(x, 2 * gap, h, 0);
    }
}

/// Rounds the quotient `n / d` to the nearest binary64 value, ties to even.
pub(crate) fn round_quotient(n: u128, d: u32) -> (rounded: u128)
    requires
        d > 0,
        n < 0x8000_0000_0000_0000_0000_0000_0000_0000,
    ensures
        rounded == nearest_magnitude(n as int, d as int),
{
    let limit: u128 = SIGNIFICAND_LIMIT as u128;
    let whole: u128 = n / limit;
    let mut step: u128 = d as u128;
    let mut scale: u128 = 1;
    while whole >= step
        invariant
            d > 0,
            scale > 0,
            limit == SIGNIFICAND_LIMIT,
            whole == n / limit,
            n < 0x8000_0000_0000_0000_0000_0000_0000_0000,
            step == d * scale,
            scale == 1 || scale * limit <= 2 * n,
            nearest_magnitude(n as int, d as int) == scale * nearest_magnitude(
                n as int,
                step as int,
            ),
        decreases n - step,
    {
        proof {
            lemma_fundamental_div_mod(n as int, limit as int);
            assert(n >= step * limit) by (nonlinear_arith)
                requires
                    n == limit * (n as int / limit as int) + n as int % limit as int,
                    n as int / limit as int >= step,
                    n as int % limit as int >= 0,
                    limit > 0,
            ;
            assert(step >= scale) by (nonlinear_arith)
                requires
                    step == d * scale,
                    d >= 1,
                    scale > 0,
            ;
            assert(2 * scale * limit <= 2 * n) by (nonlinear_arith)
                requires
                    n >= step * limit,
                    step >= scale,
                    limit > 0,
            ;
            assert(2 * step == d * (2 * scale)) by (nonlinear_arith)
                requires
                    step == d * scale,
            ;
            assert(scale * (2 * nearest_magnitude(n as int, 2 * step)) == (2 * scale)
                * nearest_magnitude(n as int, 2 * step)) by (nonlinear_arith);
        }
        step = 2 * step;
        scale = 2 * scale;
    }
    proof {
        lemma_fundamental_div_mod(n as int, limit as int);
        assert(n < step * limit) by (nonlinear_arith)
            requires
                n == limit * (n as int / limit as int) + n as int % limit as int,
                n as int / limit as int + 1 <= step,
                (n as int % limit as int) < limit,
        ;
        assert(step > 0) by (nonlinear_arith)
            requires
                step == d * scale,
                d > 0,
                scale > 0,
        ;
        lemma_fundamental_div_mod(n as int, step as int);
        assert((n as int / step as int) < limit) by (nonlinear_arith)
            requires
                n == step * (n as int / step as int) + n as int % step as int,
                n < step * limit,
                n as int % step as int >= 0,
                step > 0,
        ;
    }
    let q: u128 = n / step;
    let r: u128 = n % step;
    let up: bool = r > step - r || (r == step - r && q % 2 == 1);
    let a: u128 = if up {
        q + 1
    } else {
        q
    };
    proof {
        assert(a * scale <= limit * scale) by (nonlinear_arith)
            requires
                a <= limit,
                scale > 0,
        ;
        assert(a == round_half_even(n as int, step as int));
        assert(a * scale == scale * a) by (nonlinear_arith);
    }
    a * scale
}

} // verus!

//! Arithmetic with a fixed number of significant bits.
//!
//! Frame scaling works with ratios of two pixel counts. A ratio is held to 53
//! significant bits and a product with it is rounded to 53 bits again, each
//! time to the nearest such number and to the even one on a tie. These are
//! the steps of a double-precision division followed by a double-precision
//! multiplication, carried out on whole numbers.

use vstd::arithmetic::div_mod::{lemma_div_denominator, lemma_fundamental_div_mod,
    lemma_fundamental_div_mod_converse};
use vstd::prelude::*;

verus! {

/// Two to the 53rd: numbers below it fit a 53-bit significand.
pub const SIGNIFICAND_53: u64 = 0x20_0000_0000_0000;

/// Two to the 52nd: the smallest significand of a normalised 53-bit number.
pub const NORMAL_53: u64 = 0x10_0000_0000_0000;

/// The whole number nearest to `n / d`, the even one on a tie.
pub open spec fn round_half_even(n: nat, d: nat) -> nat {
    let q = n / d;
    let r = n % d;
    if 2 * r > d || (2 * r == d && q % 2 == 1) {
        q + 1
    } else {
        q
    }
}

/// The smallest power of two `u` with `x < limit * u`: the distance between
/// neighbouring numbers of `limit` significands at the magnitude of `x`.
pub open spec fn grain(x: nat, limit: nat) -> nat
    decreases x,
{
    if limit == 0 || x < limit {
        1
    } else {
        2 * grain(x / 2, limit)
    }
}

/// `x` rounded to the nearest multiple of its grain, ties to even.
pub open spec fn round_significant(x: nat, limit: nat) -> nat {
    round_half_even(x, grain(x, limit)) * grain(x, limit)
}

/// How far `a` is below `target`.
pub open spec fn shortfall(a: nat, target: nat) -> nat {
    if a < target {
        (target - a) as nat
    } else {
        0
    }
}

/// The smallest power of two that brings `a` up to `target`.
pub open spec fn scale_up(a: nat, target: nat) -> nat
    decreases shortfall(a, target),
{
    if a == 0 || a >= target {
        1
    } else {
        2 * scale_up(2 * a, target)
    }
}

/// The denominator of `a / b` held to 53 significant bits: a power of two.
pub open spec fn ratio_scale(a: nat, b: nat) -> nat {
    scale_up(a, b * NORMAL_53 as nat)
}

/// The numerator of `a / b` held to 53 significant bits, over `ratio_scale`.
pub open spec fn ratio_mantissa(a: nat, b: nat) -> nat {
    round_half_even(a * ratio_scale(a, b), b)
}

/// `n` times the rounded ratio `a / b`, rounded once more, in units of
/// `1 / ratio_scale(a, b)`.
pub open spec fn scaled(n: nat, a: nat, b: nat) -> nat {
    round_significant(n * ratio_mantissa(a, b), SIGNIFICAND_53 as nat)
}

/// The largest whole number not above `n * (a / b)`.
pub open spec fn scaled_floor(n: nat, a: nat, b: nat) -> nat {
    scaled(n, a, b) / ratio_scale(a, b)
}

/// The smallest whole number not below `n * (a / b)`.
pub open spec fn scaled_ceil(n: nat, a: nat, b: nat) -> nat {
    ((scaled(n, a, b) + ratio_scale(a, b) - 1) / (ratio_scale(a, b) as int)) as nat
}

/// The whole number nearest to `n * (a / b)`, the larger one on a tie.
pub open spec fn scaled_round(n: nat, a: nat, b: nat) -> nat {
    (2 * scaled(n, a, b) + ratio_scale(a, b)) / (2 * ratio_scale(a, b))
}

/// The whole nanoseconds nearest to the rounded ratio of `a` to `b` seconds.
pub open spec fn whole_nanos(a: nat, b: nat) -> nat {
    round_half_even(ratio_mantissa(a, b) * 1_000_000_000, ratio_scale(a, b))
}

/// Rounding moves a quotient by at most half a unit.
pub proof fn lemma_round_half_even(n: nat, d: nat)
    requires
        d > 0,
    ensures
        2 * (round_half_even(n, d) * d - n) <= d,
        2 * (n - round_half_even(n, d) * d) <= d,
{
    let q = n / d;
    let r = n % d;
    lemma_fundamental_div_mod(n as int, d as int);
    assert(d * q == q * d) by (nonlinear_arith);
    assert((q + 1) * d == q * d + d) by (nonlinear_arith);
}

/// A multiple of the divisor is divided exactly.
pub proof fn lemma_round_half_even_exact(k: nat, d: nat)
    requires
        d > 0,
    ensures
        round_half_even(k * d, d) == k,
{
    lemma_fundamental_div_mod_converse((k * d) as int, d as int, k as int, 0);
}

/// The grain of `x` is positive, leaves `x` below `limit` grains and, unless
/// it is one, above half of that.
pub proof fn lemma_grain(x: nat, limit: nat)
    requires
        limit > 0,
    ensures
        grain(x, limit) >= 1,
        x < limit * grain(x, limit),
        grain(x, limit) > 1 ==> limit * grain(x, limit) <= 2 * x,
    decreases x,
{
    if x >= limit {
        let g = grain(x / 2, limit);
        lemma_grain(x / 2, limit);
        assert(limit * (2 * g) == 2 * (limit * g)) by (nonlinear_arith);
    }
}

/// Rounding to significant bits has a relative error of at most one part in
/// `limit`.
pub proof fn lemma_round_significant(x: nat, limit: nat)
    requires
        limit > 0,
    ensures
        limit * (round_significant(x, limit) - x) <= x,
        limit * (x - round_significant(x, limit)) <= x,
        x < limit ==> round_significant(x, limit) == x,
{
    let u = grain(x, limit);
    let r = round_significant(x, limit);
    lemma_grain(x, limit);
    lemma_round_half_even(x, u);
    if u == 1 {
        assert(r == x) by {
            lemma_round_half_even_exact(x, 1);
        }
        assert(limit * (r - x) == 0) by (nonlinear_arith)
            requires
                r == x,
        ;
        assert(limit * (x - r) == 0) by (nonlinear_arith)
            requires
                r == x,
        ;
    } else {
        let up = r - x;
        let down = x - r;
        assert(limit * (2 * up) <= limit * u) by (nonlinear_arith)
            requires
                2 * up <= u,
                limit > 0,
        ;
        assert(limit * (2 * down) <= limit * u) by (nonlinear_arith)
            requires
                2 * down <= u,
                limit > 0,
        ;
        assert(limit * (2 * up) == 2 * (limit * up)) by (nonlinear_arith);
        assert(limit * (2 * down) == 2 * (limit * down)) by (nonlinear_arith);
    }
}

/// Halving both sides of a quotient leaves its rounding unchanged.
proof fn lemma_round_half_even_double(n: nat, d: nat)
    requires
        d > 0,
    ensures
        round_half_even(2 * n, 2 * d) == round_half_even(n, d),
{
    let q = n / d;
    let r = n % d;
    lemma_fundamental_div_mod(n as int, d as int);
    assert(2 * n == (2 * d) * q + 2 * r) by (nonlinear_arith)
        requires
            n == d * q + r,
    ;
    assert((2 * d) * q == q * (2 * d)) by (nonlinear_arith);
    lemma_fundamental_div_mod_converse((2 * n) as int, (2 * d) as int, q as int, (2 * r) as int);
}

/// Rounding to significant bits commutes with doubling.
pub proof fn lemma_round_significant_double(x: nat, limit: nat)
    requires
        limit > 0,
    ensures
        round_significant(2 * x, limit) == 2 * round_significant(x, limit),
{
    if 2 * x < limit {
        lemma_round_significant(2 * x, limit);
        lemma_round_significant(x, limit);
    } else {
        let u = grain(x, limit);
        assert((2 * x) / 2 == x);
        lemma_grain(x, limit);
        lemma_round_half_even_double(x, u);
        let k = round_half_even(x, u);
        assert(k * (2 * u) == 2 * (k * u)) by (nonlinear_arith);
    }
}

/// A number below `limit` times a scaling power of two is held exactly.
pub proof fn lemma_scaled_up_is_exact(x: nat, limit: nat, a: nat, target: nat)
    requires
        x < limit,
    ensures
        round_significant(x * scale_up(a, target), limit) == x * scale_up(a, target),
    decreases shortfall(a, target),
{
    if a == 0 || a >= target {
        lemma_round_significant(x, limit);
        assert(x * 1 == x);
    } else {
        let c = scale_up(2 * a, target);
        lemma_scaled_up_is_exact(x, limit, 2 * a, target);
        lemma_round_significant_double(x * c, limit);
        assert(x * (2 * c) == 2 * (x * c)) by (nonlinear_arith);
    }
}

/// The scaling power of two brings `a` to at least the target and to less than
/// twice the target.
pub proof fn lemma_scale_up(a: nat, target: nat)
    requires
        0 < a,
        a < 2 * target,
    ensures
        scale_up(a, target) >= 1,
        target <= a * scale_up(a, target),
        a * scale_up(a, target) < 2 * target,
    decreases shortfall(a, target),
{
    if a < target {
        let c = scale_up(2 * a, target);
        lemma_scale_up(2 * a, target);
        assert((2 * a) * c == a * (2 * c)) by (nonlinear_arith);
    }
}

/// The rounded ratio lies within half a unit of the ratio it stands for.
pub proof fn lemma_ratio(a: nat, b: nat)
    requires
        0 < a <= u32::MAX,
        0 < b <= u32::MAX,
    ensures
        ratio_scale(a, b) >= 1,
        b * NORMAL_53 <= a * ratio_scale(a, b),
        a * ratio_scale(a, b) < b * SIGNIFICAND_53,
        2 * (ratio_mantissa(a, b) * b - a * ratio_scale(a, b)) <= b,
        2 * (a * ratio_scale(a, b) - ratio_mantissa(a, b) * b) <= b,
        NORMAL_53 <= ratio_mantissa(a, b) <= SIGNIFICAND_53,
{
    let target = b * NORMAL_53 as nat;
    let c = ratio_scale(a, b);
    let m = ratio_mantissa(a, b);
    lemma_scale_up(a, target);
    lemma_round_half_even(a * c, b);
    assert(NORMAL_53 <= m <= SIGNIFICAND_53) by (nonlinear_arith)
        requires
            b > 0,
            b * NORMAL_53 <= a * c,
            a * c < b * SIGNIFICAND_53,
            2 * (m * b - a * c) <= b,
            2 * (a * c - m * b) <= b,
    ;
}

/// A scaled number is within five parts in 2^54 of the exact product.
pub proof fn lemma_scaled_error(n: nat, a: nat, b: nat)
    requires
        0 < a <= u32::MAX,
        0 < b <= u32::MAX,
    ensures
        2 * SIGNIFICAND_53 * (scaled(n, a, b) * b - n * a * ratio_scale(a, b)) <= 5 * (n * a
            * ratio_scale(a, b)),
        2 * SIGNIFICAND_53 * (n * a * ratio_scale(a, b) - scaled(n, a, b) * b) <= 5 * (n * a
            * ratio_scale(a, b)),
{
    let c = ratio_scale(a, b) as int;
    let m = ratio_mantissa(a, b) as int;
    let k = SIGNIFICAND_53 as int;
    let p = n * m;
    let r = scaled(n, a, b) as int;
    let e = n * a * c;
    let (n, a, b) = (n as int, a as int, b as int);
    lemma_ratio(a as nat, b as nat);
    lemma_round_significant(p as nat, SIGNIFICAND_53 as nat);
    assert(e == n * (a * c)) by (nonlinear_arith)
        requires
            e == n * a * c,
    ;
    assert(p * b == n * (m * b)) by (nonlinear_arith)
        requires
            p == n * m,
    ;
    assert(2 * (p * b - e) <= n * b) by (nonlinear_arith)
        requires
            p * b == n * (m * b),
            e == n * (a * c),
            2 * (m * b - a * c) <= b,
            n >= 0,
    ;
    assert(2 * (e - p * b) <= n * b) by (nonlinear_arith)
        requires
            p * b == n * (m * b),
            e == n * (a * c),
            2 * (a * c - m * b) <= b,
            n >= 0,
    ;
    assert(n * b * NORMAL_53 <= e) by (nonlinear_arith)
        requires
            e == n * (a * c),
            b * NORMAL_53 <= a * c,
            n >= 0,
    ;
    assert(k * (r - p) * b <= p * b) by (nonlinear_arith)
        requires
            k * (r - p) <= p,
            b > 0,
    ;
    assert(k * (p - r) * b <= p * b) by (nonlinear_arith)
        requires
            k * (p - r) <= p,
            b > 0,
    ;
    assert(k * (r - p) * b == k * (r * b) - k * (p * b)) by (nonlinear_arith);
    assert(k * (p - r) * b == k * (p * b) - k * (r * b)) by (nonlinear_arith);
    assert(n * b >= 0) by (nonlinear_arith)
        requires
            n >= 0,
            b > 0,
    ;
}

/// Away from whole numbers, and for products below 2^50, the scaled floor and
/// ceiling are those of the exact ratio.
pub proof fn law_scaled_matches_ratio(n: nat, a: nat, b: nat)
    requires
        0 < a <= u32::MAX,
        0 < b <= u32::MAX,
        n * a < 0x4_0000_0000_0000,
        (n * a) % b != 0,
    ensures
        scaled_floor(n, a, b) == (n * a) / b,
        scaled_ceil(n, a, b) == (n * a) / b + 1,
{
    let c = ratio_scale(a, b) as int;
    let r = scaled(n, a, b) as int;
    let x = (n * a) as int;
    let q = x / (b as int);
    let b = b as int;
    let e = x * c;
    lemma_ratio(a, b as nat);
    lemma_scaled_error(n, a, b as nat);
    lemma_fundamental_div_mod(x, b);
    assert(b * q + 1 <= x <= b * q + b - 1);
    assert(e < 0x4_0000_0000_0000 * c) by (nonlinear_arith)
        requires
            e == x * c,
            x < 0x4_0000_0000_0000,
            c >= 1,
    ;
    assert(b * q * c + c <= e <= b * q * c + b * c - c) by (nonlinear_arith)
        requires
            e == x * c,
            b * q + 1 <= x <= b * q + b - 1,
            c >= 1,
    ;
    assert(b * q * c < r * b < b * q * c + b * c);
    assert(q * c < r < q * c + c) by (nonlinear_arith)
        requires
            b * q * c < r * b < b * q * c + b * c,
            b > 0,
    ;
    lemma_fundamental_div_mod_converse(r, c, q, r - q * c);
    assert((q + 1) * c == q * c + c) by (nonlinear_arith);
    lemma_fundamental_div_mod_converse(r + c - 1, c, q + 1, r - q * c - 1);
}

/// On a whole number the scaled floor is that number or the one before, the
/// scaled ceiling that number or the one after.
pub proof fn law_scaled_near_whole_numbers(n: nat, a: nat, b: nat)
    requires
        0 < a <= u32::MAX,
        0 < b <= u32::MAX,
        n * a < 0x4_0000_0000_0000,
        (n * a) % b == 0,
    ensures
        (n * a) / b <= scaled_floor(n, a, b) + 1,
        scaled_floor(n, a, b) <= (n * a) / b,
        (n * a) / b <= scaled_ceil(n, a, b) <= (n * a) / b + 1,
{
    let c = ratio_scale(a, b) as int;
    let r = scaled(n, a, b) as int;
    let x = (n * a) as int;
    let q = x / (b as int);
    let b = b as int;
    let e = x * c;
    lemma_ratio(a, b as nat);
    lemma_scaled_error(n, a, b as nat);
    lemma_fundamental_div_mod(x, b);
    assert(e < 0x4_0000_0000_0000 * c) by (nonlinear_arith)
        requires
            e == x * c,
            x < 0x4_0000_0000_0000,
            c >= 1,
    ;
    assert(e == b * q * c) by (nonlinear_arith)
        requires
            e == x * c,
            x == b * q,
    ;
    assert(b * q * c - c < r * b < b * q * c + c);
    assert(q * c - c < r < q * c + c) by (nonlinear_arith)
        requires
            b * q * c - c < r * b < b * q * c + c,
            b >= 1,
            c >= 1,
    ;
    assert((q - 1) * c == q * c - c) by (nonlinear_arith);
    assert((q + 1) * c == q * c + c) by (nonlinear_arith);
    if r < q * c {
        lemma_fundamental_div_mod_converse(r, c, q - 1, r - q * c + c);
        lemma_fundamental_div_mod_converse(r + c - 1, c, q, r + c - 1 - q * c);
    } else {
        lemma_fundamental_div_mod_converse(r, c, q, r - q * c);
        if r == q * c {
            lemma_fundamental_div_mod_converse(r + c - 1, c, q, c - 1);
        } else {
            lemma_fundamental_div_mod_converse(r + c - 1, c, q + 1, r - q * c - 1);
        }
    }
}

/// Scaling by a whole factor is exact.
pub proof fn law_scaled_by_whole_factor(n: nat, k: nat, b: nat)
    requires
        0 < k * b <= u32::MAX,
        0 < b <= u32::MAX,
        n * k < SIGNIFICAND_53,
    ensures
        scaled_floor(n, k * b, b) == n * k,
        scaled_ceil(n, k * b, b) == n * k,
        scaled_round(n, k * b, b) == n * k,
{
    let a = k * b;
    let c = ratio_scale(a, b);
    lemma_ratio(a, b);
    assert(a * c == (k * c) * b) by (nonlinear_arith)
        requires
            a == k * b,
    ;
    lemma_round_half_even_exact(k * c, b);
    assert(n * (k * c) == (n * k) * c) by (nonlinear_arith);
    lemma_scaled_up_is_exact(n * k, SIGNIFICAND_53 as nat, a, b * NORMAL_53 as nat);
    let x = ((n * k) * c) as int;
    let q = (n * k) as int;
    let c = c as int;
    assert(x == q * c);
    lemma_fundamental_div_mod_converse(x, c, q, 0);
    lemma_fundamental_div_mod_converse(x + c - 1, c, q, c - 1);
    assert(2 * x + c == q * (2 * c) + c) by (nonlinear_arith)
        requires
            x == q * c,
    ;
    lemma_fundamental_div_mod_converse(2 * x + c, 2 * c, q, c);
}

/// Scaling by one half is exact: what is rounded is the half itself.
pub proof fn law_scaled_by_half(n: nat, a: nat)
    requires
        0 < a,
        2 * a <= u32::MAX,
        n < SIGNIFICAND_53,
    ensures
        scaled_floor(n, a, 2 * a) == n / 2,
        scaled_ceil(n, a, 2 * a) == (n + 1) / 2,
{
    let b = 2 * a;
    let target = b * NORMAL_53 as nat;
    let half = scale_up(b, target);
    let c = ratio_scale(a, b);
    lemma_ratio(a, b);
    assert(a < target);
    assert(c == 2 * half);
    assert(a * c == half * b) by (nonlinear_arith)
        requires
            c == 2 * half,
            b == 2 * a,
    ;
    lemma_round_half_even_exact(half, b);
    lemma_scaled_up_is_exact(n, SIGNIFICAND_53 as nat, b, target);
    let (q, r) = (n as int / 2, n as int % 2);
    let (x, h, c) = ((n * half) as int, half as int, c as int);
    assert(x == q * c + r * h) by (nonlinear_arith)
        requires
            x == n * h,
            n == 2 * q + r,
            c == 2 * h,
    ;
    if r == 0 {
        lemma_fundamental_div_mod_converse(x, c, q, 0);
        lemma_fundamental_div_mod_converse(x + c - 1, c, q, c - 1);
    } else {
        assert(r * h == h) by (nonlinear_arith)
            requires
                r == 1,
        ;
        lemma_fundamental_div_mod_converse(x, c, q, h);
        assert(q * c + c == (q + 1) * c) by (nonlinear_arith);
        lemma_fundamental_div_mod_converse(x + c - 1, c, q + 1, h - 1);
    }
}

/// Away from ties, and for products below 2^50, the scaled rounding is that of
/// the exact ratio.
pub proof fn law_scaled_round_matches_ratio(n: nat, a: nat, b: nat)
    requires
        0 < a <= u32::MAX,
        0 < b <= u32::MAX,
        n * a < 0x4_0000_0000_0000,
        (2 * (n * a) + b) % (2 * b) != 0,
    ensures
        scaled_round(n, a, b) == (2 * (n * a) + b) / (2 * b),
{
    let c = ratio_scale(a, b) as int;
    let r = scaled(n, a, b) as int;
    let x = (n * a) as int;
    let b = b as int;
    let y = 2 * x + b;
    let q = y / (2 * b);
    let e = x * c;
    lemma_ratio(a, b as nat);
    lemma_scaled_error(n, a, b as nat);
    lemma_fundamental_div_mod(y, 2 * b);
    assert((2 * b) * q + 1 <= y <= (2 * b) * q + 2 * b - 1);
    assert(e < 0x4_0000_0000_0000 * c) by (nonlinear_arith)
        requires
            e == x * c,
            x < 0x4_0000_0000_0000,
            c >= 1,
    ;
    assert((2 * b) * q * c + c <= 2 * e + b * c <= (2 * b) * q * c + 2 * b * c - c)
        by (nonlinear_arith)
        requires
            e == x * c,
            y == 2 * x + b,
            (2 * b) * q + 1 <= y <= (2 * b) * q + 2 * b - 1,
            c >= 1,
    ;
    let z = 2 * r + c;
    assert(z * b == 2 * (r * b) + b * c) by (nonlinear_arith)
        requires
            z == 2 * r + c,
    ;
    assert((2 * b) * q * c < z * b < (2 * b) * q * c + 2 * b * c);
    assert(q * (2 * c) < z < q * (2 * c) + 2 * c) by (nonlinear_arith)
        requires
            (2 * b) * q * c < z * b < (2 * b) * q * c + 2 * b * c,
            b > 0,
    ;
    lemma_fundamental_div_mod_converse(z, 2 * c, q, z - q * (2 * c));
}

/// Scaling a position below `b` by `a / b` stays below `a`.
pub proof fn law_scaled_floor_stays_inside(n: nat, a: nat, b: nat)
    requires
        0 < a <= u32::MAX,
        0 < b <= u32::MAX,
        n < b,
    ensures
        scaled_floor(n, a, b) < a,
{
    let c = ratio_scale(a, b) as int;
    let r = scaled(n, a, b) as int;
    let e = (n * a * ratio_scale(a, b)) as int;
    lemma_ratio(a, b);
    lemma_scaled_error(n, a, b);
    let (n, a, b) = (n as int, a as int, b as int);
    let k = SIGNIFICAND_53 as int;
    assert(2 * k * (r * b - e) <= 5 * e);
    assert(e <= b * (a * c) - a * c) by (nonlinear_arith)
        requires
            e == n * a * c,
            n <= b - 1,
            a > 0,
            c >= 1,
    ;
    assert(e == n * (a * c)) by (nonlinear_arith)
        requires
            e == n * a * c,
    ;
    assert(n * (a * c) <= 0xffff_ffff * (a * c)) by (nonlinear_arith)
        requires
            n <= u32::MAX,
            a > 0,
            c >= 1,
    ;
    assert(a * c > 0) by (nonlinear_arith)
        requires
            a > 0,
            c >= 1,
    ;
    assert(2 * k * (r * b - e) < 2 * k * (a * c));
    assert(r * b < b * (a * c));
    assert(r < a * c) by (nonlinear_arith)
        requires
            r * b < b * (a * c),
            b > 0,
    ;
    let q = r / c;
    lemma_fundamental_div_mod(r, c);
    assert(q < a) by (nonlinear_arith)
        requires
            r < a * c,
            c * q <= r,
            c >= 1,
    ;
}

/// Scaling by a ratio below one does not grow a number.
pub proof fn law_scaled_round_shrinks(n: nat, a: nat, b: nat)
    requires
        0 <= a < b,
        b <= u32::MAX,
    ensures
        scaled_round(n, a, b) <= n,
{
    let c = ratio_scale(a, b) as int;
    let r = scaled(n, a, b) as int;
    let (n, a, b) = (n as int, a as int, b as int);
    if a == 0 {
        assert(ratio_mantissa(0, b as nat) == 0) by {
            lemma_round_half_even_exact(0, b as nat);
        }
        assert(n * 0 == 0) by (nonlinear_arith);
        lemma_round_significant(0, SIGNIFICAND_53 as nat);
        assert(scaled(n as nat, 0, b as nat) == 0);
        assert(c == 1);
        lemma_fundamental_div_mod_converse(2 * r + c, 2 * c, 0, 1);
    } else {
        let e = ((n as nat) * (a as nat) * ratio_scale(a as nat, b as nat)) as int;
        let k = SIGNIFICAND_53 as int;
        lemma_ratio(a as nat, b as nat);
        lemma_scaled_error(n as nat, a as nat, b as nat);
        assert(2 * k * (r * b - e) <= 5 * e);
        assert(e <= b * (n * c) - n * c) by (nonlinear_arith)
            requires
                e == n * a * c,
                a <= b - 1,
                n >= 0,
                c >= 1,
        ;
        assert(e <= 0xffff_ffff * (n * c)) by (nonlinear_arith)
            requires
                e == n * a * c,
                a <= u32::MAX,
                n >= 0,
                c >= 1,
        ;
        assert(n * c >= 0) by (nonlinear_arith)
            requires
                n >= 0,
                c >= 1,
        ;
        assert(2 * k * (r * b - e) <= 2 * k * (n * c));
        assert(r * b <= b * (n * c));
        assert(r <= n * c) by (nonlinear_arith)
            requires
                r * b <= b * (n * c),
                b > 0,
        ;
        let z = 2 * r + c;
        let q = z / (2 * c);
        lemma_fundamental_div_mod(z, 2 * c);
        assert(q <= n) by (nonlinear_arith)
            requires
                z == 2 * r + c,
                r <= n * c,
                (2 * c) * q <= z,
                c >= 1,
        ;
    }
}

/// The rounding of the ratio does not show in whole nanoseconds: a `b`th of a
/// second becomes the nearest whole number of them.
pub proof fn law_whole_nanos_are_nearest(b: nat)
    requires
        0 < b <= u32::MAX,
    ensures
        2 * (whole_nanos(1, b) * b - 1_000_000_000) <= b,
        2 * (1_000_000_000 - whole_nanos(1, b) * b) <= b,
{
    let g: int = 1_000_000_000;
    let m = ratio_mantissa(1, b) as int;
    let c = ratio_scale(1, b) as int;
    let r = whole_nanos(1, b) as int;
    let d = b as int;
    lemma_ratio(1, b);
    lemma_round_half_even((m * g) as nat, c as nat);
    assert(1 * c == c);
    let k = NORMAL_53 as int;
    assert(d * k <= c);
    assert(g * d < c) by (nonlinear_arith)
        requires
            d * k <= c,
            k == 0x10_0000_0000_0000,
            g == 1_000_000_000,
            d > 0,
    ;
    assert(2 * (r * d - g) < d + 1) by (nonlinear_arith)
        requires
            2 * (r * c - m * g) <= c,
            2 * (m * d - c) <= d,
            g * d < c,
            c > 0,
            d > 0,
            g == 1_000_000_000,
    {
        assert(2 * (r * c - m * g) * d <= c * d);
        assert(2 * (m * d - c) * g <= d * g);
        assert(2 * (r * c - m * g) * d == 2 * (r * d) * c - 2 * (m * d) * g);
        assert(2 * (m * d - c) * g == 2 * (m * d) * g - 2 * c * g);
        assert(2 * (r * d) * c - 2 * c * g <= c * d + d * g);
        assert(2 * (r * d - g) * c == 2 * (r * d) * c - 2 * c * g);
        assert(2 * (r * d - g) * c < (d + 1) * c);
    }
    assert(2 * (g - r * d) < d + 1) by (nonlinear_arith)
        requires
            2 * (m * g - r * c) <= c,
            2 * (c - m * d) <= d,
            g * d < c,
            c > 0,
            d > 0,
            g == 1_000_000_000,
    {
        assert(2 * (m * g - r * c) * d <= c * d);
        assert(2 * (c - m * d) * g <= d * g);
        assert(2 * (m * g - r * c) * d == 2 * (m * d) * g - 2 * (r * d) * c);
        assert(2 * (c - m * d) * g == 2 * c * g - 2 * (m * d) * g);
        assert(2 * c * g - 2 * (r * d) * c <= c * d + d * g);
        assert(2 * (g - r * d) * c == 2 * c * g - 2 * (r * d) * c);
        assert(2 * (g - r * d) * c < (d + 1) * c);
    }
}

/// Rounds `n / d` to the nearest whole number, ties to even.
pub fn divide_half_even(n: u128, d: u128) -> (res: u128)
    requires
        0 < d <= 0x1_0000_0000_0000_0000_0000_0000_0000,
    ensures
        res == round_half_even(n as nat, d as nat),
{
    let q = n / d;
    let r = n % d;
    if 2 * r > d || (2 * r == d && q % 2 == 1) {
        assert(q < u128::MAX) by {
            lemma_fundamental_div_mod(n as int, d as int);
            assert(q <= n - r) by (nonlinear_arith)
                requires
                    n == d * q + r,
                    d >= 1,
            ;
        }
        q + 1
    } else {
        q
    }
}

/// Rounds `x` to significant bits: to the nearest of `limit` significands.
pub fn round_to_significant(x: u128, limit: u64) -> (res: u128)
    requires
        limit > 0,
        x <= 0x4000_0000_0000_0000_0000_0000,
    ensures
        res == round_significant(x as nat, limit as nat),
        res <= 2 * x,
{
    let mut y: u128 = x;
    let mut u: u128 = 1;
    while y >= limit as u128
        invariant
            u >= 1,
            limit > 0,
            grain(x as nat, limit as nat) == u * grain(y as nat, limit as nat),
            y == x / u,
            u * y <= x,
            x <= 0x4000_0000_0000_0000_0000_0000,
        decreases y,
    {
        proof {
            lemma_div_denominator(x as int, u as int, 2);
            assert(u * (2 * grain((y / 2) as nat, limit as nat)) == (2 * u) * grain(
                (y / 2) as nat,
                limit as nat,
            )) by (nonlinear_arith);
            assert(u <= x) by (nonlinear_arith)
                requires
                    u * y <= x,
                    y >= 1,
            ;
            assert((2 * u) * (y / 2) <= u * y) by (nonlinear_arith)
                requires
                    u >= 1,
            ;
        }
        y = y / 2;
        u = 2 * u;
    }
    assert(u * 1 == u) by (nonlinear_arith);
    assert(u == 1 || u <= 2 * x) by {
        lemma_grain(x as nat, limit as nat);
        assert(1 * u <= limit * u) by (nonlinear_arith)
            requires
                limit >= 1,
        ;
    }
    let k = divide_half_even(x, u);
    proof {
        lemma_round_significant(x as nat, limit as nat);
        let r = round_significant(x as nat, limit as nat);
        assert(r - x <= x) by (nonlinear_arith)
            requires
                limit * (r - x) <= x,
                limit >= 1,
                x >= 0,
        ;
        assert(k * u == r);
    }
    k * u
}

/// The ratio of two pixel counts, held to 53 significant bits.
pub struct Ratio {
    num: u32,
    den: u32,
    mantissa: u128,
    scale: u128,
}

impl Ratio {
    /// The count above the line.
    pub closed spec fn num(&self) -> nat {
        self.num as nat
    }

    /// The count below the line.
    pub closed spec fn den(&self) -> nat {
        self.den as nat
    }

    /// The rounded ratio belongs to the two counts.
    pub closed spec fn wf(&self) -> bool {
        &&& self.den > 0
        &&& self.scale == ratio_scale(self.num as nat, self.den as nat)
        &&& self.mantissa == ratio_mantissa(self.num as nat, self.den as nat)
        &&& 1 <= self.scale <= 0x40_0000_0000_0000_0000_0000
        &&& self.mantissa <= SIGNIFICAND_53
    }

    /// The ratio of `num` to `den`.
    pub fn new(num: u32, den: u32) -> (res: Ratio)
        requires
            den > 0,
        ensures
            res.wf(),
            res.num() == num,
            res.den() == den,
    {
        let target: u128 = den as u128 * NORMAL_53 as u128;
        let mut a: u128 = num as u128;
        let mut c: u128 = 1;
        proof {
            assert(den * NORMAL_53 <= 0xffff_ffff * NORMAL_53) by (nonlinear_arith)
                requires
                    den <= 0xffff_ffff,
            ;
            assert(1 * scale_up(num as nat, target as nat) == scale_up(num as nat, target as nat));
        }
        while a > 0 && a < target
            invariant
                c >= 1,
                a == num * c,
                scale_up(num as nat, target as nat) == c * scale_up(a as nat, target as nat),
                target <= 0x10_0000_0000_0000_0000_0000,
                c == 1 || c < 2 * target,
            decreases shortfall(a as nat, target as nat),
        {
            proof {
                assert(c <= a) by (nonlinear_arith)
                    requires
                        a == num * c,
                        a > 0,
                ;
                assert(c * (2 * scale_up((2 * a) as nat, target as nat)) == (2 * c) * scale_up(
                    (2 * a) as nat,
                    target as nat,
                )) by (nonlinear_arith);
                assert(num * (2 * c) == 2 * (num * c)) by (nonlinear_arith);
            }
            a = 2 * a;
            c = 2 * c;
        }
        assert(c * 1 == c);
        assert(num > 0 ==> a < 2 * target) by {
            if num > 0 {
                lemma_scale_up(num as nat, target as nat);
            }
        }
        assert(num == 0 ==> a == 0) by (nonlinear_arith)
            requires
                a == num * c,
        ;
        let m = divide_half_even(a, den as u128);
        proof {
            if num > 0 {
                lemma_ratio(num as nat, den as nat);
            } else {
                lemma_round_half_even_exact(0, den as nat);
            }
        }
        Ratio { num, den, mantissa: m, scale: c }
    }

    /// `n` times this ratio, rounded, in units of `1 / scale`.
    fn times(&self, n: u32) -> (res: u128)
        requires
            self.wf(),
        ensures
            res == scaled(n as nat, self.num(), self.den()),
            res <= 0x40_0000_0000_0000_0000_0000,
    {
        assert(n * self.mantissa <= 0xffff_ffff * SIGNIFICAND_53) by (nonlinear_arith)
            requires
                n <= 0xffff_ffff,
                0 <= self.mantissa <= SIGNIFICAND_53,
        ;
        round_to_significant(n as u128 * self.mantissa, SIGNIFICAND_53)
    }

    /// `n` times this ratio, rounded down to a whole number.
    pub fn floor_of(&self, n: u32) -> (res: u128)
        requires
            self.wf(),
        ensures
            res == scaled_floor(n as nat, self.num(), self.den()),
    {
        self.times(n) / self.scale
    }

    /// `n` times this ratio, rounded up to a whole number.
    pub fn ceil_of(&self, n: u32) -> (res: u128)
        requires
            self.wf(),
        ensures
            res == scaled_ceil(n as nat, self.num(), self.den()),
    {
        (self.times(n) + (self.scale - 1)) / self.scale
    }

    /// `n` times this ratio, rounded to the nearest whole number.
    pub fn round_of(&self, n: u32) -> (res: u128)
        requires
            self.wf(),
        ensures
            res == scaled_round(n as nat, self.num(), self.den()),
    {
        (2 * self.times(n) + self.scale) / (2 * self.scale)
    }

    /// The whole nanoseconds of this ratio taken as seconds.
    pub fn nanos(&self) -> (res: u128)
        requires
            self.wf(),
        ensures
            res == whole_nanos(self.num(), self.den()),
    {
        divide_half_even(self.mantissa * 1_000_000_000, self.scale)
    }
}

/// Rounding gives the whole number nearest to a quotient: no other is nearer, and where two are
/// as near it is the even one.
pub proof fn law_rounding(n: nat, d: nat, other: nat)
    requires
        d > 0,
    ensures
        ({
            let r = round_half_even(n, d);
            let off = if n < r * d {
                r * d - n
            } else {
                n - r * d
            };
            let other_off = if n < other * d {
                other * d - n
            } else {
                n - other * d
            };
            &&& off <= other_off
            &&& off == other_off && r != other ==> r % 2 == 0
        }),
{
    let r = round_half_even(n, d) as int;
    let (k, m, e) = (other as int, n as int, d as int);
    lemma_round_half_even(n, d);
    lemma_fundamental_div_mod(m, e);
    let q = m / e;
    assert(e * q == q * e) by (nonlinear_arith);
    assert((q + 1) * e == q * e + e) by (nonlinear_arith);
    if k > r {
        assert(k * e >= r * e + e) by (nonlinear_arith)
            requires
                k >= r + 1,
                e > 0,
        ;
    } else if k < r {
        assert(k * e + e <= r * e) by (nonlinear_arith)
            requires
                k + 1 <= r,
                e > 0,
        ;
    }
}

/// A significand has 53 bits.
pub proof fn law_significands()
    ensures
        SIGNIFICAND_53 == vstd::arithmetic::power2::pow2(53),
        2 * NORMAL_53 == SIGNIFICAND_53,
{
    vstd::arithmetic::power2::lemma2_to64();
    vstd::arithmetic::power2::lemma2_to64_rest();
}

/// Scaling by one half rounds halves up.
pub proof fn law_halves_are_rounded_up(n: nat, a: nat)
    requires
        0 < a,
        2 * a <= u32::MAX,
        n < SIGNIFICAND_53,
    ensures
        scaled_round(n, a, 2 * a) == (n + 1) / 2,
{
    let b = 2 * a;
    let target = b * NORMAL_53 as nat;
    let half = scale_up(b, target);
    let c = ratio_scale(a, b);
    lemma_ratio(a, b);
    assert(a < target);
    assert(c == 2 * half);
    assert(a * c == half * b) by (nonlinear_arith)
        requires
            c == 2 * half,
            b == 2 * a,
    ;
    lemma_round_half_even_exact(half, b);
    lemma_scaled_up_is_exact(n, SIGNIFICAND_53 as nat, b, target);
    let (q, r) = ((n + 1) as int / 2, (n + 1) as int % 2);
    let (x, h, c) = ((n * half) as int, half as int, c as int);
    assert(2 * x + c == q * (2 * c) + r * c) by (nonlinear_arith)
        requires
            x == n * h,
            n + 1 == 2 * q + r,
            c == 2 * h,
    ;
    if r == 1 {
        assert(r * c == c) by (nonlinear_arith)
            requires
                r == 1,
        ;
        lemma_fundamental_div_mod_converse(2 * x + c, 2 * c, q, c);
    } else {
        assert(r * c == 0) by (nonlinear_arith)
            requires
                r == 0,
        ;
        lemma_fundamental_div_mod_converse(2 * x + c, 2 * c, q, 0);
    }
}

/// A ratio of two counts scales as the exact ratio does: away from whole numbers the floor and
/// the ceiling are those of the exact product, and away from ties the rounding is. A ratio of a
/// count to its double halves, and rounds halves up.
pub proof fn law_scaling(
    num: u32,
    den: u32,
    ratio: Ratio,
    n: u32,
    floor: u128,
    ceil: u128,
    round: u128,
)
    requires
        num > 0,
        den > 0,
        call_ensures(Ratio::new, (num, den), ratio),
        call_ensures(Ratio::floor_of, (&ratio, n), floor),
        call_ensures(Ratio::ceil_of, (&ratio, n), ceil),
        call_ensures(Ratio::round_of, (&ratio, n), round),
    ensures
        n * num < 0x4_0000_0000_0000 ==> {
            let (x, b) = (n * num, den as int);
            &&& x % b != 0 ==> floor * b < x && x < (floor + 1) * b && ceil == floor + 1
            &&& x % b == 0 ==> floor * b <= x && x <= (floor + 1) * b && x <= ceil * b
            &&& (2 * x + b) % (2 * b) != 0 ==> 2 * (x - round * b) < b && 2 * (round * b - x) < b
        },
        den == 2 * num ==> floor == n / 2 && ceil == (n + 1) / 2 && round == (n + 1) / 2,
{
    let (m, a, b) = (n as nat, num as nat, den as nat);
    if n * num < 0x4_0000_0000_0000 {
        let x = (m * a) as int;
        let e = b as int;
        lemma_fundamental_div_mod(x, e);
        let q = x / e;
        assert(e * q == q * e && (q + 1) * e == q * e + e) by (nonlinear_arith);
        if x % e != 0 {
            law_scaled_matches_ratio(m, a, b);
        } else {
            law_scaled_near_whole_numbers(m, a, b);
            let (f, c) = (floor as int, ceil as int);
            assert(f * e <= q * e && q * e <= (f + 1) * e && q * e <= c * e) by (nonlinear_arith)
                requires
                    f <= q <= f + 1,
                    q <= c,
                    e > 0,
            ;
        }
        let y = 2 * x + e;
        if y % (2 * e) != 0 {
            law_scaled_round_matches_ratio(m, a, b);
            lemma_fundamental_div_mod(y, 2 * e);
            let k = y / (2 * e);
            assert((2 * e) * k == 2 * (k * e)) by (nonlinear_arith);
        }
    }
    if den == 2 * num {
        law_scaled_by_half(m, a);
        law_halves_are_rounded_up(m, a);
    }
}

/// Dividing gives the whole number nearest to the quotient, the even one of two.
pub proof fn law_dividing(n: u128, d: u128, res: u128)
    requires
        d > 0,
        call_ensures(divide_half_even, (n, d), res),
    ensures
        2 * (n - res * d) <= d,
        2 * (res * d - n) <= d,
        2 * (n - res * d) == d || 2 * (res * d - n) == d ==> res % 2 == 0,
{
    let (m, e, r) = (n as int, d as int, res as int);
    lemma_round_half_even(n as nat, d as nat);
    if 2 * (n - res * d) == d {
        assert((r + 1) * e == r * e + e) by (nonlinear_arith);
        law_rounding(n as nat, d as nat, (r + 1) as nat);
    }
    if 2 * (res * d - n) == d {
        assert(r > 0) by (nonlinear_arith)
            requires
                2 * (r * e - m) == e,
                e > 0,
                m >= 0,
                r >= 0,
        ;
        assert((r - 1) * e == r * e - e) by (nonlinear_arith);
        law_rounding(n as nat, d as nat, (r - 1) as nat);
    }
}

/// Rounding to significant bits leaves alone what has no more bits, changes a number by no more
/// than its share, and is the same for a number and for its double.
pub proof fn law_keeping_significant_bits(x: u128, limit: u64, once: u128, twice: u128)
    requires
        limit > 0,
        2 * x <= u128::MAX,
        call_ensures(round_to_significant, (x, limit), once),
        call_ensures(round_to_significant, ((2 * x) as u128, limit), twice),
    ensures
        x < limit ==> once == x,
        limit * (once - x) <= x,
        limit * (x - once) <= x,
        twice == 2 * once,
{
    lemma_round_significant(x as nat, limit as nat);
    lemma_round_significant_double(x as nat, limit as nat);
}

} // verus!

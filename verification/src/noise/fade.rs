//! The fade curve that smooths the blend between the corners of a cell.

use vstd::prelude::*;
use crate::noise::perlin::{lemma_quotients_near, ONE};

verus! {

/// The fade curve `6t^5 - 15t^4 + 10t^3` at `t`, rounded down.
#[verifier::opaque]
pub open spec fn fade_spec(t: int) -> int {
    let one = ONE as int;
    (t * t * t * (6 * t * t - 15 * t * one + 10 * one * one)) / (one * one * one * one)
}

/// The product of a sum of four terms with a sum of three.
proof fn lemma_product_of_sums(x1: int, x2: int, x3: int, x4: int, y1: int, y2: int, y3: int)
    ensures
        (x1 + x2 + x3 + x4) * (y1 + y2 + y3) == x1 * y1 + x1 * y2 + x1 * y3 + x2 * y1 + x2 * y2 + x2
            * y3 + x3 * y1 + x3 * y2 + x3 * y3 + x4 * y1 + x4 * y2 + x4 * y3,
{
    assert((x1 + x2 + x3 + x4) * (y1 + y2 + y3) == x1 * y1 + x1 * y2 + x1 * y3 + x2 * y1 + x2 * y2 + x2
            * y3 + x3 * y1 + x3 * y2 + x3 * y3 + x4 * y1 + x4 * y2 + x4 * y3) by (nonlinear_arith);
}

/// The product of two scaled numbers.
proof fn lemma_scaled_product(k: int, x: int, j: int, y: int)
    ensures
        (k * x) * (j * y) == (k * j) * (x * y),
{
    assert((k * x) * (j * y) == (k * j) * (x * y)) by (nonlinear_arith);
}

/// The numerator of the fade curve lies between zero and the fifth power
/// of one: what is missing to that power is `(1 - t)^3 (6t^2 + 3t + 1)`.
proof fn lemma_fade_numerator(t: int, o: int)
    requires
        0 <= t <= o,
    ensures
        o * o * o * o * o - t * t * t * (6 * t * t - 15 * t * o + 10 * o * o) >= 0,
        t * t * t * (6 * t * t - 15 * t * o + 10 * o * o) >= 0,
{
    let a = t * t;
    let b = t * o;
    let c = o * o;
    let m30 = t * a;
    let m21 = o * a;
    let m12 = o * b;
    let m03 = o * c;
    assert(t * b == m21) by (nonlinear_arith)
        requires
            b == t * o,
            m21 == o * a,
            a == t * t,
    ;
    assert(t * c == m12) by (nonlinear_arith)
        requires
            c == o * o,
            m12 == o * b,
            b == t * o,
    ;
    let s = o - t;
    let s2 = s * s;
    let s3 = s * s2;
    assert(s2 == c - 2 * b + a) by (nonlinear_arith)
        requires
            s == o - t,
            s2 == s * s,
            a == t * t,
            b == t * o,
            c == o * o,
    ;
    assert(s3 == o * c - 2 * (o * b) + o * a - t * c + 2 * (t * b) - t * a) by (nonlinear_arith)
        requires
            s3 == s * s2,
            s == o - t,
            s2 == c - 2 * b + a,
    ;
    assert(s3 == m03 - 3 * m12 + 3 * m21 - m30);
    let p = 6 * a - 15 * b + 10 * c;
    let q = 6 * a + 3 * b + c;
    let n50 = m30 * a;
    let n41 = m30 * b;
    let n32 = m30 * c;
    let n23 = m03 * a;
    let n14 = m03 * b;
    let n05 = m03 * c;
    assert(m21 * a == n41) by (nonlinear_arith)
        requires
            a == t * t,
            b == t * o,
            c == o * o,
            m30 == t * a,
            m21 == o * a,
            m12 == o * b,
            m03 == o * c,
            n41 == m30 * b,
    ;
    assert(m21 * b == n32) by (nonlinear_arith)
        requires
            a == t * t,
            b == t * o,
            c == o * o,
            m30 == t * a,
            m21 == o * a,
            m12 == o * b,
            m03 == o * c,
            n32 == m30 * c,
    ;
    assert(m21 * c == n23) by (nonlinear_arith)
        requires
            a == t * t,
            b == t * o,
            c == o * o,
            m30 == t * a,
            m21 == o * a,
            m12 == o * b,
            m03 == o * c,
            n23 == m03 * a,
    ;
    assert(m12 * a == n32) by (nonlinear_arith)
        requires
            a == t * t,
            b == t * o,
            c == o * o,
            m30 == t * a,
            m21 == o * a,
            m12 == o * b,
            m03 == o * c,
            n32 == m30 * c,
    ;
    assert(m12 * b == n23) by (nonlinear_arith)
        requires
            a == t * t,
            b == t * o,
            c == o * o,
            m30 == t * a,
            m21 == o * a,
            m12 == o * b,
            m03 == o * c,
            n23 == m03 * a,
    ;
    assert(m12 * c == n14) by (nonlinear_arith)
        requires
            a == t * t,
            b == t * o,
            c == o * o,
            m30 == t * a,
            m21 == o * a,
            m12 == o * b,
            m03 == o * c,
            n14 == m03 * b,
    ;
    lemma_product_of_sums(m03, -3 * m12, 3 * m21, -m30, 6 * a, 3 * b, c);
    lemma_scaled_product(1, m03, 6, a);
    lemma_scaled_product(1, m03, 3, b);
    lemma_scaled_product(-3, m12, 6, a);
    lemma_scaled_product(-3, m12, 3, b);
    lemma_scaled_product(-3, m12, 1, c);
    lemma_scaled_product(3, m21, 6, a);
    lemma_scaled_product(3, m21, 3, b);
    lemma_scaled_product(3, m21, 1, c);
    lemma_scaled_product(-1, m30, 6, a);
    lemma_scaled_product(-1, m30, 3, b);
    lemma_scaled_product(-1, m30, 1, c);
    assert(s3 * q == n05 - 10 * n32 + 15 * n41 - 6 * n50);
    lemma_product_of_sums(m30, 0, 0, 0, 6 * a, -15 * b, 10 * c);
    lemma_scaled_product(1, m30, 6, a);
    lemma_scaled_product(1, m30, -15, b);
    lemma_scaled_product(1, m30, 10, c);
    assert(m30 * p == 6 * n50 - 15 * n41 + 10 * n32);
    assert(n05 - m30 * p == s3 * q);
    assert(s2 >= 0) by (nonlinear_arith)
        requires
            s2 == s * s,
    ;
    assert(s3 >= 0) by (nonlinear_arith)
        requires
            s3 == s * s2,
            s >= 0,
            s2 >= 0,
    ;
    assert(a >= 0 && b >= 0 && c >= 0) by (nonlinear_arith)
        requires
            a == t * t,
            b == t * o,
            c == o * o,
            t >= 0,
            o >= 0,
    ;
    assert(s3 * q >= 0) by (nonlinear_arith)
        requires
            s3 >= 0,
            q >= 0,
    ;
    assert(n05 == o * o * o * o * o) by (nonlinear_arith)
        requires
            n05 == m03 * c,
            m03 == o * c,
            c == o * o,
    ;
    assert(m30 == t * t * t) by (nonlinear_arith)
        requires
            m30 == t * a,
            a == t * t,
    ;
    assert(6 * t * t == 6 * a && 15 * t * o == 15 * b && 10 * o * o == 10 * c) by (nonlinear_arith)
        requires
            a == t * t,
            b == t * o,
            c == o * o,
    ;
    let w = 4 * t - 5 * o;
    assert(8 * p == 3 * (w * w) + 5 * c) by (nonlinear_arith)
        requires
            p == 6 * a - 15 * b + 10 * c,
            w == 4 * t - 5 * o,
            a == t * t,
            b == t * o,
            c == o * o,
    ;
    assert(w * w >= 0) by (nonlinear_arith);
    assert(m30 >= 0) by (nonlinear_arith)
        requires
            m30 == t * a,
            t >= 0,
            a >= 0,
    ;
    assert(m30 * p >= 0) by (nonlinear_arith)
        requires
            m30 >= 0,
            p >= 0,
    ;
}

/// The fade curve rises from zero at zero to one at one and stays between
/// them.
pub proof fn lemma_fade_range(t: int)
    requires
        0 <= t <= ONE,
    ensures
        0 <= fade_spec(t) <= ONE,
        t == 0 ==> fade_spec(t) == 0,
        t == ONE ==> fade_spec(t) == ONE,
{
    reveal(fade_spec);
    let one = ONE as int;
    let numerator = t * t * t * (6 * t * t - 15 * t * one + 10 * one * one);
    let unit = one * one * one * one;
    lemma_fade_numerator(t, one);
    assert(unit == 0x1_0000_0000_0000_0000 && one * one * one * one * one == 0x1_0000 * unit)
        by (nonlinear_arith)
        requires
            one == 0x1_0000,
            unit == one * one * one * one,
    ;
    assert(t == 0 ==> numerator == 0) by (nonlinear_arith)
        requires
            numerator == t * t * t * (6 * t * t - 15 * t * one + 10 * one * one),
    ;
    assert(t == one ==> numerator == one * unit) by (nonlinear_arith)
        requires
            numerator == t * t * t * (6 * t * t - 15 * t * one + 10 * one * one),
            unit == one * one * one * one,
    ;
}

/// Sixteen times the numerator of the fade curve, less eight times the
/// fifth power of one, is `2t - 1` times a number that is never negative:
/// the curve lies below one half before the middle and above it after.
proof fn lemma_fade_half_identity(t: int, o: int)
    ensures
        ({
            let n = t * t * t * (6 * t * t - 15 * t * o + 10 * o * o);
            let big = 2 * t - o;
            let q = big * big;
            let c = o * o;
            let w = 3 * (q * q) - 10 * (q * c) + 15 * (c * c);
            &&& 16 * n - 8 * (o * (c * c)) == big * w
            &&& w >= 0
        }),
{
    let n = t * t * t * (6 * t * t - 15 * t * o + 10 * o * o);
    let big = 2 * t - o;
    let q = big * big;
    let c = o * o;
    let w = 3 * (q * q) - 10 * (q * c) + 15 * (c * c);
    let a = t * t;
    let b = t * o;
    let t3 = t * a;
    let t4 = a * a;
    let t5 = t * t4;
    let e = 3 * q - 5 * c;
    assert(3 * w == e * e + 20 * (c * c)) by (nonlinear_arith)
        requires
            w == 3 * (q * q) - 10 * (q * c) + 15 * (c * c),
            e == 3 * q - 5 * c,
    ;
    assert(e * e >= 0) by (nonlinear_arith);
    assert(c * c >= 0) by (nonlinear_arith);
    assert(q == 4 * a - 4 * b + c) by (nonlinear_arith)
        requires
            q == big * big,
            big == 2 * t - o,
            a == t * t,
            b == t * o,
            c == o * o,
    ;
    assert(b * b == a * c) by (nonlinear_arith)
        requires
            a == t * t,
            b == t * o,
            c == o * o,
    ;
    assert(q * q == 16 * (a * a) - 32 * (a * b) + 24 * (a * c) - 8 * (b * c) + c * c)
        by (nonlinear_arith)
        requires
            q == 4 * a - 4 * b + c,
            b * b == a * c,
    ;
    assert(q * c == 4 * (a * c) - 4 * (b * c) + c * c) by (nonlinear_arith)
        requires
            q == 4 * a - 4 * b + c,
    ;
    assert(w == 48 * (a * a) - 96 * (a * b) + 32 * (a * c) + 16 * (b * c) + 8 * (c * c));
    // The monomials of the fifth degree.
    let p50 = t * (a * a);
    let p41 = o * (a * a);
    let p32 = o * (a * b);
    let p23 = o * (a * c);
    let p14 = o * (b * c);
    let p05 = o * (c * c);
    assert(t * (a * b) == p41) by (nonlinear_arith)
        requires
            p41 == o * (a * a),
            a == t * t,
            b == t * o,
    ;
    assert(t * (a * c) == p32) by (nonlinear_arith)
        requires
            p32 == o * (a * b),
            a == t * t,
            b == t * o,
            c == o * o,
    ;
    assert(t * (b * c) == p23) by (nonlinear_arith)
        requires
            p23 == o * (a * c),
            a == t * t,
            b == t * o,
            c == o * o,
    ;
    assert(t * (c * c) == p14) by (nonlinear_arith)
        requires
            p14 == o * (b * c),
            b == t * o,
            c == o * o,
    ;
    assert(big * w == 2 * (t * w) - o * w) by (nonlinear_arith)
        requires
            big == 2 * t - o,
    ;
    assert(t * w == 48 * p50 - 96 * p41 + 32 * p32 + 16 * p23 + 8 * p14) by (nonlinear_arith)
        requires
            w == 48 * (a * a) - 96 * (a * b) + 32 * (a * c) + 16 * (b * c) + 8 * (c * c),
            p50 == t * (a * a),
            t * (a * b) == p41,
            t * (a * c) == p32,
            t * (b * c) == p23,
            t * (c * c) == p14,
    ;
    assert(o * w == 48 * p41 - 96 * p32 + 32 * p23 + 16 * p14 + 8 * p05) by (nonlinear_arith)
        requires
            w == 48 * (a * a) - 96 * (a * b) + 32 * (a * c) + 16 * (b * c) + 8 * (c * c),
            p41 == o * (a * a),
            p32 == o * (a * b),
            p23 == o * (a * c),
            p14 == o * (b * c),
            p05 == o * (c * c),
    ;
    assert(big * w == 96 * p50 - 240 * p41 + 160 * p32 - 8 * p05);
    // The numerator in the same monomials.
    let poly = 6 * a - 15 * b + 10 * c;
    assert(6 * t * t == 6 * a && 15 * t * o == 15 * b && 10 * o * o == 10 * c) by (nonlinear_arith)
        requires
            a == t * t,
            b == t * o,
            c == o * o,
    ;
    assert(t * t * t == t3) by (nonlinear_arith)
        requires
            t3 == t * a,
            a == t * t,
    ;
    assert(n == t3 * poly);
    assert(t3 * poly == 6 * (t3 * a) - 15 * (t3 * b) + 10 * (t3 * c)) by (nonlinear_arith)
        requires
            poly == 6 * a - 15 * b + 10 * c,
    ;
    assert(t3 * a == p50) by (nonlinear_arith)
        requires
            t3 == t * a,
            p50 == t * (a * a),
    ;
    assert(t3 * b == p41) by (nonlinear_arith)
        requires
            t3 == t * a,
            p41 == o * (a * a),
            a == t * t,
            b == t * o,
    ;
    assert(t3 * c == p32) by (nonlinear_arith)
        requires
            t3 == t * a,
            p32 == o * (a * b),
            a == t * t,
            b == t * o,
            c == o * o,
    ;
}

/// The fade curve is at most one half up to the middle of the cell and at
/// least one half from there on.
pub proof fn lemma_fade_half(t: int)
    requires
        0 <= t <= ONE,
    ensures
        t <= ONE / 2 ==> fade_spec(t) <= ONE / 2,
        t >= ONE / 2 ==> fade_spec(t) >= ONE / 2,
{
    reveal(fade_spec);
    let one = ONE as int;
    let n = t * t * t * (6 * t * t - 15 * t * one + 10 * one * one);
    let unit = one * one * one * one;
    let big = 2 * t - one;
    let q = big * big;
    let c = one * one;
    let w = 3 * (q * q) - 10 * (q * c) + 15 * (c * c);
    lemma_fade_half_identity(t, one);
    assert(unit == 0x1_0000_0000_0000_0000 && one * (c * c) == 0x1_0000 * unit) by (nonlinear_arith)
        requires
            one == 0x1_0000,
            unit == one * one * one * one,
            c == one * one,
    ;
    assert(big <= 0 ==> big * w <= 0) by (nonlinear_arith)
        requires
            w >= 0,
    ;
    assert(big >= 0 ==> big * w >= 0) by (nonlinear_arith)
        requires
            w >= 0,
    ;
}

/// The numerator of the fade curve.
spec fn fade_numerator(t: int, o: int) -> int {
    t * t * t * (6 * t * t - 15 * t * o + 10 * o * o)
}

/// The numerator of the fade curve as a sum of powers.
proof fn lemma_numerator_in_powers(t: int, o: int)
    ensures
        fade_numerator(t, o) == 6 * (t * t * t * t * t) - 15 * (o * (t * t * t * t)) + 10 * ((o * o)
            * (t * t * t)),
{
    let t3 = t * t * t;
    let a = t * t;
    let b = t * o;
    let c = o * o;
    assert(6 * t * t == 6 * a) by (nonlinear_arith)
        requires
            a == t * t,
    ;
    assert(15 * t * o == 15 * b) by (nonlinear_arith)
        requires
            b == t * o,
    ;
    assert(10 * o * o == 10 * c) by (nonlinear_arith)
        requires
            c == o * o,
    ;
    assert(t3 * (6 * a - 15 * b + 10 * c) == 6 * (t3 * a) - 15 * (t3 * b) + 10 * (t3 * c))
        by (nonlinear_arith);
    assert(t3 * a == t * t * t * t * t) by (nonlinear_arith)
        requires
            t3 == t * t * t,
            a == t * t,
    ;
    assert(t3 * b == o * (t * t * t * t)) by (nonlinear_arith)
        requires
            t3 == t * t * t,
            b == t * o,
    ;
    assert(t3 * c == (o * o) * (t * t * t)) by (nonlinear_arith)
        requires
            t3 == t * t * t,
            c == o * o,
    ;
}

/// The powers of `t + 1` in powers of `t`.
proof fn lemma_powers_of_successor(t: int)
    ensures
        ({
            let u = t + 1;
            let t2 = t * t;
            let t3 = t * t * t;
            let t4 = t * t * t * t;
            let t5 = t * t * t * t * t;
            &&& u * u * u == t3 + 3 * t2 + 3 * t + 1
            &&& u * u * u * u == t4 + 4 * t3 + 6 * t2 + 4 * t + 1
            &&& u * u * u * u * u == t5 + 5 * t4 + 10 * t3 + 10 * t2 + 5 * t + 1
        }),
{
    let u = t + 1;
    let t2 = t * t;
    let t3 = t * t * t;
    let t4 = t * t * t * t;
    let t5 = t * t * t * t * t;
    let u2 = u * u;
    let u3 = u * u * u;
    let u4 = u * u * u * u;
    assert(u2 == t2 + 2 * t + 1) by (nonlinear_arith)
        requires
            u == t + 1,
            u2 == u * u,
            t2 == t * t,
    ;
    assert(u3 == t3 + 3 * t2 + 3 * t + 1) by (nonlinear_arith)
        requires
            u == t + 1,
            u3 == u2 * u,
            u2 == t2 + 2 * t + 1,
            t2 == t * t,
            t3 == t2 * t,
    ;
    assert(u4 == t4 + 4 * t3 + 6 * t2 + 4 * t + 1) by (nonlinear_arith)
        requires
            u == t + 1,
            u4 == u3 * u,
            u3 == t3 + 3 * t2 + 3 * t + 1,
            t2 == t * t,
            t3 == t2 * t,
            t4 == t3 * t,
    ;
    assert(u * u * u * u * u == t5 + 5 * t4 + 10 * t3 + 10 * t2 + 5 * t + 1) by (nonlinear_arith)
        requires
            u == t + 1,
            u * u * u * u * u == u4 * u,
            u4 == t4 + 4 * t3 + 6 * t2 + 4 * t + 1,
            t2 == t * t,
            t3 == t2 * t,
            t4 == t3 * t,
            t5 == t4 * t,
    ;
}

/// By how much the numerator of the fade curve grows from `t` to `t + 1`.
proof fn lemma_numerator_step(t: int, o: int)
    ensures
        ({
            let a = t * t;
            let b = t * o;
            let c = o * o;
            let m = b - a;
            fade_numerator(t + 1, o) - fade_numerator(t, o) == 30 * (m * m) + 30 * (t * (2 * a - 3
                * b + c)) + 60 * a - 60 * b + 10 * c + 30 * t - 15 * o + 6
        }),
{
    let u = t + 1;
    let a = t * t;
    let b = t * o;
    let c = o * o;
    let m = b - a;
    let t3 = t * t * t;
    let t4 = t * t * t * t;
    let t5 = t * t * t * t * t;
    let u3 = u * u * u;
    let u4 = u * u * u * u;
    let u5 = u * u * u * u * u;
    lemma_numerator_in_powers(t, o);
    lemma_numerator_in_powers(u, o);
    lemma_powers_of_successor(t);
    // The products of the powers with `o` and `o * o`.
    let ot4 = o * t4;
    let ot3 = o * t3;
    let ct3 = c * t3;
    assert(o * u4 == ot4 + 4 * ot3 + 6 * (o * a) + 4 * b + o) by (nonlinear_arith)
        requires
            u4 == t4 + 4 * t3 + 6 * a + 4 * t + 1,
            ot4 == o * t4,
            ot3 == o * t3,
            b == t * o,
    ;
    assert(c * u3 == ct3 + 3 * (c * a) + 3 * (c * t) + c) by (nonlinear_arith)
        requires
            u3 == t3 + 3 * a + 3 * t + 1,
            ct3 == c * t3,
    ;
    // The same monomials as they stand in the claim.
    assert(m * m == c * a - 2 * ot3 + t4) by (nonlinear_arith)
        requires
            m == b - a,
            a == t * t,
            b == t * o,
            c == o * o,
            ot3 == o * (t * t * t),
            t4 == t * t * t * t,
    ;
    assert(t * (2 * a - 3 * b + c) == 2 * t3 - 3 * (o * a) + c * t) by (nonlinear_arith)
        requires
            a == t * t,
            b == t * o,
            c == o * o,
            t3 == t * t * t,
    ;
}

/// The numerator of the fade curve grows by less than two units of its
/// denominator from `t` to `t + 1`, and does not fall by a whole one.
proof fn lemma_numerator_step_bounded(t: int)
    requires
        0 <= t < 0x1_0000,
    ensures
        -0x1_0000_0000_0000_0000 < fade_numerator(t + 1, 0x1_0000) - fade_numerator(t, 0x1_0000)
            < 2 * 0x1_0000_0000_0000_0000,
{
    let o = 0x1_0000int;
    let a = t * t;
    let b = t * o;
    let c = o * o;
    let m = b - a;
    let w = 2 * a - 3 * b + c;
    lemma_numerator_step(t, o);
    assert(c == 0x1_0000_0000) by (nonlinear_arith)
        requires
            c == o * o,
            o == 0x1_0000,
    ;
    assert(0 <= a <= b) by (nonlinear_arith)
        requires
            a == t * t,
            b == t * o,
            0 <= t < o,
    ;
    assert(b <= c - o) by (nonlinear_arith)
        requires
            b == t * o,
            c == o * o,
            0 <= t < o,
            o > 0,
    ;
    let d = o - 2 * t;
    assert(d * d == c - 4 * b + 4 * a) by (nonlinear_arith)
        requires
            d == o - 2 * t,
            a == t * t,
            b == t * o,
            c == o * o,
    ;
    assert(d * d >= 0) by (nonlinear_arith);
    assert(0 <= m <= 0x4000_0000);
    assert(0 <= m * m <= 0x4000_0000 * 0x4000_0000) by (nonlinear_arith)
        requires
            0 <= m <= 0x4000_0000,
    ;
    assert(-3 * c <= w <= c);
    assert(-3 * c * o <= t * w <= c * o) by (nonlinear_arith)
        requires
            -3 * c <= w <= c,
            0 <= t < o,
            c >= 0,
    ;
    assert(c * o == 0x1_0000_0000_0000) by (nonlinear_arith)
        requires
            c == 0x1_0000_0000,
            o == 0x1_0000,
    ;
}

/// From one point to the next the fade curve rises by at most two, and
/// falls by at most one.
pub proof fn lemma_fade_step(t: int)
    requires
        0 <= t < ONE,
    ensures
        -1 <= fade_spec(t + 1) - fade_spec(t) <= 2,
{
    reveal(fade_spec);
    let one = ONE as int;
    let unit = one * one * one * one;
    assert(unit == 0x1_0000_0000_0000_0000) by (nonlinear_arith)
        requires
            one == 0x1_0000,
            unit == one * one * one * one,
    ;
    lemma_numerator_step_bounded(t);
    lemma_quotients_near(fade_numerator(t, one), fade_numerator(t + 1, one), unit, 2);
}

/// The fade curve at `t`, for `t` from zero to one.
pub fn fade(t: i64) -> (value: i64)
    requires
        0 <= t <= ONE,
    ensures
        value == fade_spec(t as int),
        0 <= value <= ONE,
{
    proof {
        reveal(fade_spec);
        lemma_fade_range(t as int);
    }
    let wide: i128 = t as i128;
    let one: i128 = ONE as i128;
    assert(0 <= wide * wide <= 0x1_0000 * 0x1_0000) by (nonlinear_arith)
        requires
            0 <= wide <= 0x1_0000,
    ;
    let t2: i128 = wide * wide;
    assert(0 <= t2 * wide <= 0x1_0000_0000 * 0x1_0000) by (nonlinear_arith)
        requires
            0 <= wide <= 0x1_0000,
            0 <= t2 <= 0x1_0000_0000,
    ;
    let t3: i128 = t2 * wide;
    let p: i128 = 6 * t2 - 15 * wide * one + 10 * one * one;
    assert(-0x100_0000_0000 * 0x1_0000_0000_0000 <= t3 * p <= 0x100_0000_0000
        * 0x1_0000_0000_0000) by (nonlinear_arith)
        requires
            0 <= t3 <= 0x1_0000_0000_0000,
            -0x100_0000_0000 <= p <= 0x100_0000_0000,
    ;
    let product: i128 = t3 * p;
    proof {
        let t = t as int;
        let o = ONE as int;
        assert(product == t * t * t * (6 * t * t - 15 * t * o + 10 * o * o)) by (nonlinear_arith)
            requires
                product == t3 * p,
                t3 == t2 * wide,
                t2 == wide * wide,
                p == 6 * t2 - 15 * wide * one + 10 * one * one,
                wide == t,
                one == o,
        ;
        assert(o * o * o * o == 0x1_0000_0000_0000_0000) by (nonlinear_arith)
            requires
                o == 0x1_0000,
        ;
        assert(product >= 0) by {
            if product < 0 {
                assert(product / 0x1_0000_0000_0000_0000 < 0);
            }
        }
    }
    let value: i128 = product / 0x1_0000_0000_0000_0000;
    value as i64
}

} // verus!

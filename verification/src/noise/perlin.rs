//! Gradient noise on the integer lattice: the hash that gives each lattice
//! point its unit gradient, and the noise that blends the corners of a cell.

use vstd::prelude::*;
use crate::noise::fade::{fade, fade_spec};

verus! {

/// The fixed-point number one.
pub const ONE: i64 = 0x1_0000;

/// The fixed-point number two: the width of the range from minus one to
/// one.
pub const TWO: i64 = 0x2_0000;

/// Largest magnitude of a value that [`interpolate`] accepts.
pub const VALUE_LIMIT: i64 = 0x1_0000_0000;

/// Most octaves that a noise field sums.
pub const MAX_OCTAVES: u32 = 16;

/// Highest base frequency of a noise field: 65536 cells to the unit.
pub const MAX_FREQUENCY: i64 = 0x1_0000_0000;

/// Amplitude of the first octave of [`perlin_noise2d`]: a tenth.
pub const PERLIN_AMPLITUDE: i64 = 6554;

/// Frequency of the first octave of [`perlin_noise2d`]: a twentieth of a
/// cell to the unit.
pub const PERLIN_FREQUENCY: i64 = 3277;

/// A vector in the plane: a gradient, or the offset from a lattice point to
/// a sample point.
#[derive(Clone, Copy, Debug, PartialEq, Eq, Structural)]
pub struct Vector2 {
    pub x: i64,
    pub y: i64,
}

/// The lattice cell that holds the coordinate `x`. Cells repeat every
/// 2^32, so the field is periodic.
pub open spec fn cell_of(x: int) -> int {
    (x / (ONE as int)) % 0x1_0000_0000
}

/// How far the coordinate `x` lies into its cell, from 0 to just below one.
pub open spec fn frac_of(x: int) -> int {
    x % (ONE as int)
}

/// The cell after `cell`, going round at 2^32.
pub open spec fn next_cell(cell: int) -> int {
    (cell + 1) % 0x1_0000_0000
}

/// One round of the lattice hash: mixes `b` into `a`.
#[verifier::opaque]
pub open spec fn scramble_spec(a: u32, b: u32) -> u32 {
    let a1 = a.wrapping_mul(3284157443u32);
    let b1 = b ^ (a1 << 16u32 | a1 >> 16u32);
    let b2 = b1.wrapping_mul(1911520717u32);
    let a2 = a1 ^ (b2 << 16u32 | b2 >> 16u32);
    a2.wrapping_mul(2048419325u32)
}

/// The hash of the lattice point `(ix, iy)` in the field with seed `seed`.
pub open spec fn lattice_hash(seed: u32, ix: u32, iy: u32) -> u32 {
    scramble_spec(scramble_spec(seed, ix), iy)
}

/// Whether `gradient` is one of the four unit vectors along the axes.
pub open spec fn is_axis_unit(gradient: Vector2) -> bool {
    ||| (gradient.x == ONE && gradient.y == 0)
    ||| (gradient.x == 0 && gradient.y == ONE)
    ||| (gradient.x == -ONE && gradient.y == 0)
    ||| (gradient.x == 0 && gradient.y == -ONE)
}

/// The unit vector that `v` selects by its two lowest bits: the direction
/// after `v` quarter turns from the positive x axis.
pub open spec fn gradient2d(v: i32) -> Vector2 {
    let h = v & 3i32;
    if h == 0 {
        Vector2 { x: ONE, y: 0i64 }
    } else if h == 1 {
        Vector2 { x: 0i64, y: ONE }
    } else if h == 2 {
        Vector2 { x: (-ONE) as i64, y: 0i64 }
    } else {
        Vector2 { x: 0i64, y: (-ONE) as i64 }
    }
}

/// The gradient of the lattice point `(ix, iy)`: the unit vector that the
/// two highest bits of the point's hash select. The hash, read as an
/// angle, is turned back to the last quarter turn.
pub open spec fn gradient_at(seed: u32, ix: u32, iy: u32) -> Vector2 {
    gradient2d((lattice_hash(seed, ix, iy) >> 30u32) as i32)
}

/// Every gradient is a unit vector: its squared length is one.
pub proof fn lemma_gradient_is_unit(seed: u32, ix: u32, iy: u32)
    ensures
        is_axis_unit(gradient_at(seed, ix, iy)),
        gradient_at(seed, ix, iy).x * gradient_at(seed, ix, iy).x + gradient_at(seed, ix, iy).y
            * gradient_at(seed, ix, iy).y == ONE * ONE,
{
    let gradient = gradient_at(seed, ix, iy);
    lemma_axis_square(gradient.x as int);
    lemma_axis_square(gradient.y as int);
}

/// The value at `w` of the line that is `a0` at zero and `a1` at one,
/// rounded down.
#[verifier::opaque]
pub open spec fn interpolate_spec(a0: int, a1: int, w: int) -> int {
    ((a1 - a0) * w) / (ONE as int) + a0
}

/// The dot product of the gradient at the lattice point `(ix, iy)` with the
/// offset `(dx, dy)` from that point to the sample point.
pub open spec fn dot_grid_gradient_spec(seed: u32, ix: u32, iy: u32, dx: int, dy: int) -> int {
    let gradient = gradient_at(seed, ix, iy);
    (gradient.x * dx + gradient.y * dy) / (ONE as int)
}

/// The noise at the point that lies `(fx, fy)` into the cell `(cx, cy)`,
/// where the corners are blended with the weights `u` along x and `v`
/// along y.
#[verifier::opaque]
pub open spec fn cell_value(seed: u32, cx: int, cy: int, fx: int, fy: int, u: int, v: int) -> int {
    let x0 = cx as u32;
    let y0 = cy as u32;
    let x1 = next_cell(cx) as u32;
    let y1 = next_cell(cy) as u32;
    let one = ONE as int;
    let n00 = dot_grid_gradient_spec(seed, x0, y0, fx, fy);
    let n10 = dot_grid_gradient_spec(seed, x1, y0, fx - one, fy);
    let n01 = dot_grid_gradient_spec(seed, x0, y1, fx, fy - one);
    let n11 = dot_grid_gradient_spec(seed, x1, y1, fx - one, fy - one);
    interpolate_spec(interpolate_spec(n00, n10, u), interpolate_spec(n01, n11, u), v)
}

/// Gradient noise at `(x, y)`: the corners of the cell that holds the
/// point, blended with the fade curve.
pub open spec fn perlin_spec(seed: u32, x: int, y: int) -> int {
    cell_value(
        seed,
        cell_of(x),
        cell_of(y),
        frac_of(x),
        frac_of(y),
        fade_spec(frac_of(x)),
        fade_spec(frac_of(y)),
    )
}

/// The products of a number with zero, one and minus one in fixed point.
pub proof fn lemma_axis_products(a: int, b: int)
    ensures
        a == 0 ==> a * b == 0,
        a == ONE ==> a * b == 0x1_0000 * b,
        a == -ONE ==> a * b == -0x1_0000 * b,
{
    assert(a == 0 ==> a * b == 0) by (nonlinear_arith);
    assert(a == 0x1_0000 ==> a * b == 0x1_0000 * b) by (nonlinear_arith);
    assert(a == -0x1_0000 ==> a * b == -0x1_0000 * b) by (nonlinear_arith);
}

/// The square of a component of a unit vector along an axis is zero or
/// one.
pub proof fn lemma_axis_square(a: int)
    requires
        a == 0 || a == ONE || a == -ONE,
    ensures
        a == 0 ==> a * a == 0,
        a != 0 ==> a * a == ONE * ONE,
        ONE * ONE == 0x1_0000_0000,
{
    assert(a == 0 ==> a * a == 0) by (nonlinear_arith);
    assert(a == 0x1_0000 ==> a * a == 0x1_0000_0000) by (nonlinear_arith);
    assert(a == -0x1_0000 ==> a * a == 0x1_0000_0000) by (nonlinear_arith);
    assert(ONE * ONE == 0x1_0000_0000) by (nonlinear_arith)
        requires
            ONE == 0x1_0000,
    ;
}

/// What the dot product with a unit vector along an axis is: the offset
/// along that axis, or its negative.
pub proof fn lemma_dot_with_axis(seed: u32, ix: u32, iy: u32, dx: int, dy: int)
    ensures
        ({
            let gradient = gradient_at(seed, ix, iy);
            dot_grid_gradient_spec(seed, ix, iy, dx, dy) == if gradient.x == ONE {
                dx
            } else if gradient.x == -ONE {
                -dx
            } else if gradient.y == ONE {
                dy
            } else {
                -dy
            }
        }),
{
    let gradient = gradient_at(seed, ix, iy);
    lemma_axis_products(gradient.x as int, dx);
    lemma_axis_products(gradient.y as int, dy);
}

/// A blend with a weight between zero and one lies between the two values
/// blended; weight zero gives the first exactly and weight one the second.
pub proof fn lemma_interpolate_between(a0: int, a1: int, w: int)
    requires
        0 <= w <= ONE,
    ensures
        a0 <= a1 ==> a0 <= interpolate_spec(a0, a1, w) <= a1,
        a1 <= a0 ==> a1 <= interpolate_spec(a0, a1, w) <= a0,
        w == 0 ==> interpolate_spec(a0, a1, w) == a0,
        w == ONE ==> interpolate_spec(a0, a1, w) == a1,
{
    reveal(interpolate_spec);
    let d = a1 - a0;
    let one = ONE as int;
    assert(d >= 0 ==> 0 <= d * w <= d * one) by (nonlinear_arith)
        requires
            0 <= w <= one,
    ;
    assert(d <= 0 ==> d * one <= d * w <= 0) by (nonlinear_arith)
        requires
            0 <= w <= one,
    ;
    assert(w == 0 ==> d * w == 0) by (nonlinear_arith);
    assert(w == one ==> d * w == d * one) by (nonlinear_arith);
    assert(d * one == d * 65536);
}

/// A blend of two bounded values is bounded by the blend of the bounds.
pub proof fn lemma_interpolate_weighted(a0: int, a1: int, w: int, bound0: int, bound1: int)
    requires
        0 <= w <= ONE,
        -bound0 <= a0 <= bound0,
        -bound1 <= a1 <= bound1,
    ensures
        interpolate_spec(a0, a1, w) * ONE <= (ONE - w) * bound0 + w * bound1,
        interpolate_spec(a0, a1, w) * ONE > -((ONE - w) * bound0 + w * bound1) - ONE,
{
    reveal(interpolate_spec);
    let one = ONE as int;
    let product = (a1 - a0) * w;
    let quotient = product / one;
    vstd::arithmetic::div_mod::lemma_fundamental_div_mod(product, one);
    vstd::arithmetic::div_mod::lemma_mod_bound(product, one);
    assert(a0 * one + product == (one - w) * a0 + w * a1) by (nonlinear_arith)
        requires
            product == (a1 - a0) * w,
    ;
    assert(-((one - w) * bound0) <= (one - w) * a0 <= (one - w) * bound0) by (nonlinear_arith)
        requires
            0 <= w <= one,
            -bound0 <= a0 <= bound0,
    ;
    assert(-(w * bound1) <= w * a1 <= w * bound1) by (nonlinear_arith)
        requires
            0 <= w,
            -bound1 <= a1 <= bound1,
    ;
    assert((quotient + a0) * one == one * quotient + a0 * one) by (nonlinear_arith);
}

/// The product of two bounded numbers is bounded by the product of the
/// bounds.
pub proof fn lemma_product_bounded(x: int, y: int, a: int, b: int)
    requires
        -a <= x <= a,
        -b <= y <= b,
    ensures
        -(a * b) <= x * y <= a * b,
{
    assert(-(a * b) <= x * y <= a * b) by (nonlinear_arith)
        requires
            -a <= x <= a,
            -b <= y <= b,
    ;
}

/// The quotients of two numbers that lie less than `n` divisors apart lie
/// no more than `n` apart.
pub proof fn lemma_quotients_near(x: int, y: int, k: int, n: int)
    requires
        k > 0,
        -(n * k) < y - x < n * k,
    ensures
        -n <= y / k - x / k <= n,
{
    vstd::arithmetic::div_mod::lemma_fundamental_div_mod(x, k);
    vstd::arithmetic::div_mod::lemma_fundamental_div_mod(y, k);
    vstd::arithmetic::div_mod::lemma_mod_bound(x, k);
    vstd::arithmetic::div_mod::lemma_mod_bound(y, k);
    let p = x / k;
    let q = y / k;
    assert(k * (q - p) == k * q - k * p) by (nonlinear_arith);
    assert(-((n + 1) * k) < k * (q - p) < (n + 1) * k) by (nonlinear_arith)
        requires
            k > 0,
            -(n * k) < y - x < n * k,
            y - x - k < k * (q - p) < y - x + k,
    ;
    assert(-(n + 1) < q - p < n + 1) by (nonlinear_arith)
        requires
            k > 0,
            -((n + 1) * k) < k * (q - p) < (n + 1) * k,
    ;
}

/// Blends of nearby values with nearby weights are nearby: where the
/// values blended lie no more than two apart, have moved by at most
/// `moved`, and the weight has moved by at most `turned`, the blend has
/// moved by at most `moved + 2 * turned`.
pub proof fn lemma_interpolate_near(
    a0: int,
    a1: int,
    w: int,
    b0: int,
    b1: int,
    v: int,
    moved: int,
    turned: int,
)
    requires
        0 <= w <= ONE,
        0 <= v <= ONE,
        -2 * ONE <= a1 - a0 <= 2 * ONE,
        0 <= moved,
        0 <= turned,
        -moved <= b0 - a0 <= moved,
        -moved <= b1 - a1 <= moved,
        -turned <= v - w <= turned,
    ensures
        -(moved + 2 * turned) <= interpolate_spec(b0, b1, v) - interpolate_spec(a0, a1, w) <= moved
            + 2 * turned,
{
    reveal(interpolate_spec);
    let one = ONE as int;
    let before = (a1 - a0) * w;
    let after = (b1 - b0) * v;
    let change = interpolate_spec(b0, b1, v) - interpolate_spec(a0, a1, w);
    vstd::arithmetic::div_mod::lemma_fundamental_div_mod(before, one);
    vstd::arithmetic::div_mod::lemma_fundamental_div_mod(after, one);
    vstd::arithmetic::div_mod::lemma_mod_bound(before, one);
    vstd::arithmetic::div_mod::lemma_mod_bound(after, one);
    // The blends before the rounding, times one.
    let exact_before = a0 * one + before;
    let exact_after = b0 * one + after;
    let first = (one - v) * (b0 - a0);
    let second = v * (b1 - a1);
    let third = (v - w) * (a1 - a0);
    assert(exact_after - exact_before == first + second + third) by (nonlinear_arith)
        requires
            exact_before == a0 * one + before,
            exact_after == b0 * one + after,
            before == (a1 - a0) * w,
            after == (b1 - b0) * v,
            first == (one - v) * (b0 - a0),
            second == v * (b1 - a1),
            third == (v - w) * (a1 - a0),
    ;
    assert(-((one - v) * moved) <= first <= (one - v) * moved) by (nonlinear_arith)
        requires
            first == (one - v) * (b0 - a0),
            0 <= one - v,
            -moved <= b0 - a0 <= moved,
    ;
    assert(-(v * moved) <= second <= v * moved) by (nonlinear_arith)
        requires
            second == v * (b1 - a1),
            0 <= v,
            -moved <= b1 - a1 <= moved,
    ;
    assert((one - v) * moved + v * moved == one * moved) by (nonlinear_arith);
    lemma_product_bounded(v - w, a1 - a0, turned, 2 * one);
    assert(turned * (2 * one) == one * (2 * turned)) by (nonlinear_arith);
    let reach = moved + 2 * turned;
    assert(one * reach == one * moved + one * (2 * turned)) by (nonlinear_arith)
        requires
            reach == moved + 2 * turned,
    ;
    assert(-(one * reach) <= exact_after - exact_before <= one * reach);
    assert(one * (before / one) == before - before % one);
    assert(one * (after / one) == after - after % one);
    assert(one * change == one * (after / one) + one * b0 - one * (before / one) - one * a0)
        by (nonlinear_arith)
        requires
            change == (after / one + b0) - (before / one + a0),
    ;
    assert(one * change == exact_after - exact_before - after % one + before % one) by (nonlinear_arith)
        requires
            one * change == one * (after / one) + one * b0 - one * (before / one) - one * a0,
            one * (before / one) == before - before % one,
            one * (after / one) == after - after % one,
            exact_before == a0 * one + before,
            exact_after == b0 * one + after,
    ;
    assert(-(one * (reach + 1)) < one * change < one * (reach + 1)) by (nonlinear_arith)
        requires
            -(one * reach) <= exact_after - exact_before <= one * reach,
            one * change == exact_after - exact_before - after % one + before % one,
            0 <= before % one < one,
            0 <= after % one < one,
    ;
    assert(-(reach + 1) < change < reach + 1) by (nonlinear_arith)
        requires
            one > 0,
            -(one * (reach + 1)) < one * change < one * (reach + 1),
    ;
}

/// The dot product with a gradient moves by one when the offset moves by
/// one along an axis.
pub proof fn lemma_dot_grid_gradient_step(seed: u32, ix: u32, iy: u32, dx: int, dy: int)
    ensures
        -1 <= dot_grid_gradient_spec(seed, ix, iy, dx + 1, dy) - dot_grid_gradient_spec(
            seed,
            ix,
            iy,
            dx,
            dy,
        ) <= 1,
        -1 <= dot_grid_gradient_spec(seed, ix, iy, dx, dy + 1) - dot_grid_gradient_spec(
            seed,
            ix,
            iy,
            dx,
            dy,
        ) <= 1,
{
    lemma_dot_with_axis(seed, ix, iy, dx, dy);
    lemma_dot_with_axis(seed, ix, iy, dx + 1, dy);
    lemma_dot_with_axis(seed, ix, iy, dx, dy + 1);
}

/// The dot product of a gradient with an offset inside one cell is at most
/// one in magnitude.
pub proof fn lemma_dot_grid_gradient_bounded(seed: u32, ix: u32, iy: u32, dx: int, dy: int)
    requires
        -ONE <= dx <= ONE,
        -ONE <= dy <= ONE,
    ensures
        -ONE <= dot_grid_gradient_spec(seed, ix, iy, dx, dy) <= ONE,
{
    lemma_dot_with_axis(seed, ix, iy, dx, dy);
}

/// The noise inside a cell is at most one in magnitude.
pub proof fn lemma_cell_value_bounded(
    seed: u32,
    cx: int,
    cy: int,
    fx: int,
    fy: int,
    u: int,
    v: int,
)
    requires
        0 <= fx <= ONE,
        0 <= fy <= ONE,
        0 <= u <= ONE,
        0 <= v <= ONE,
    ensures
        -ONE <= cell_value(seed, cx, cy, fx, fy, u, v) <= ONE,
{
    reveal(cell_value);
    let x0 = cx as u32;
    let y0 = cy as u32;
    let x1 = next_cell(cx) as u32;
    let y1 = next_cell(cy) as u32;
    let one = ONE as int;
    let n00 = dot_grid_gradient_spec(seed, x0, y0, fx, fy);
    let n10 = dot_grid_gradient_spec(seed, x1, y0, fx - one, fy);
    let n01 = dot_grid_gradient_spec(seed, x0, y1, fx, fy - one);
    let n11 = dot_grid_gradient_spec(seed, x1, y1, fx - one, fy - one);
    lemma_dot_grid_gradient_bounded(seed, x0, y0, fx, fy);
    lemma_dot_grid_gradient_bounded(seed, x1, y0, fx - one, fy);
    lemma_dot_grid_gradient_bounded(seed, x0, y1, fx, fy - one);
    lemma_dot_grid_gradient_bounded(seed, x1, y1, fx - one, fy - one);
    lemma_interpolate_between(n00, n10, u);
    lemma_interpolate_between(n01, n11, u);
    lemma_interpolate_between(interpolate_spec(n00, n10, u), interpolate_spec(n01, n11, u), v);
}

/// One round of the lattice hash.
pub fn scramble(a: u32, b: u32) -> (hash: u32)
    ensures
        hash == scramble_spec(a, b),
{
    proof {
        reveal(scramble_spec);
    }
    let a1: u32 = a.wrapping_mul(3284157443);
    let b1: u32 = b ^ (a1 << 16 | a1 >> 16);
    let b2: u32 = b1.wrapping_mul(1911520717);
    let a2: u32 = a1 ^ (b2 << 16 | b2 >> 16);
    a2.wrapping_mul(2048419325)
}

/// The unit vector that `v` selects by its two lowest bits.
pub fn get_gradient_vector2d(v: i32) -> (gradient: Vector2)
    ensures
        gradient == gradient2d(v),
        is_axis_unit(gradient),
{
    let h: i32 = v & 3;
    match h {
        0 => Vector2 { x: ONE, y: 0 },
        1 => Vector2 { x: 0, y: ONE },
        2 => Vector2 { x: -ONE, y: 0 },
        _ => Vector2 { x: 0, y: -ONE },
    }
}

/// The gradient of the lattice point `(ix, iy)` in the field with seed
/// `seed`: a unit vector.
pub fn random_gradient(seed: u32, ix: u32, iy: u32) -> (gradient: Vector2)
    ensures
        gradient == gradient_at(seed, ix, iy),
        is_axis_unit(gradient),
        gradient.x * gradient.x + gradient.y * gradient.y == ONE * ONE,
{
    proof {
        lemma_gradient_is_unit(seed, ix, iy);
    }
    let hash: u32 = scramble(scramble(seed, ix), iy);
    let quadrant: u32 = hash >> 30;
    assert(hash >> 30u32 <= 3u32) by (bit_vector);
    get_gradient_vector2d(quadrant as i32)
}

/// The value at `w` of the line that is `a0` at zero and `a1` at one.
pub fn interpolate(a0: i64, a1: i64, w: i64) -> (value: i64)
    requires
        -VALUE_LIMIT <= a0 <= VALUE_LIMIT,
        -VALUE_LIMIT <= a1 <= VALUE_LIMIT,
        0 <= w <= ONE,
    ensures
        value == interpolate_spec(a0 as int, a1 as int, w as int),
        a0 <= a1 ==> a0 <= value <= a1,
        a1 <= a0 ==> a1 <= value <= a0,
{
    proof {
        reveal(interpolate_spec);
        lemma_interpolate_between(a0 as int, a1 as int, w as int);
    }
    let d: i64 = a1 - a0;
    assert(-0x2_0000_0000 * 0x1_0000 <= d * w <= 0x2_0000_0000 * 0x1_0000) by (nonlinear_arith)
        requires
            -0x2_0000_0000 <= d <= 0x2_0000_0000,
            0 <= w <= 0x1_0000,
    ;
    let m: i64 = d * w;
    let q: i64 = m >> 16;
    assert(m >> 16 == m / 65536) by (bit_vector);
    q + a0
}

/// The dot product of the gradient at the lattice point `(ix, iy)` with the
/// offset `(dx, dy)` from that point to the sample point.
pub fn dot_grid_gradient(seed: u32, ix: u32, iy: u32, dx: i64, dy: i64) -> (dot: i64)
    requires
        -ONE <= dx <= ONE,
        -ONE <= dy <= ONE,
    ensures
        dot == dot_grid_gradient_spec(seed, ix, iy, dx as int, dy as int),
        -ONE <= dot <= ONE,
{
    let gradient = random_gradient(seed, ix, iy);
    proof {
        lemma_dot_with_axis(seed, ix, iy, dx as int, dy as int);
    }
    if gradient.x == ONE {
        dx
    } else if gradient.x == -ONE {
        -dx
    } else if gradient.y == ONE {
        dy
    } else {
        -dy
    }
}

/// The lattice cell that holds the coordinate `x`.
pub fn cell(x: i64) -> (index: u32)
    ensures
        index == cell_of(x as int),
{
    let q: i64 = x >> 16;
    assert(x >> 16 == x / 65536) by (bit_vector);
    let index: u32 = #[verifier::truncate] (q as u32);
    assert(q as u32 == q % 0x1_0000_0000) by (bit_vector);
    index
}

/// How far the coordinate `x` lies into its cell.
pub fn frac(x: i64) -> (part: i64)
    ensures
        part == frac_of(x as int),
        0 <= part < ONE,
{
    let part: i64 = x & 0xFFFF;
    assert(x & 0xFFFF == x % 65536) by (bit_vector);
    part
}

/// The noise at the point that lies `(fx, fy)` into the cell `(cx, cy)`,
/// with the blending weights `u` and `v`.
pub fn cell_noise(seed: u32, cx: u32, cy: u32, fx: i64, fy: i64, u: i64, v: i64) -> (value: i64)
    requires
        0 <= fx <= ONE,
        0 <= fy <= ONE,
        0 <= u <= ONE,
        0 <= v <= ONE,
    ensures
        value == cell_value(seed, cx as int, cy as int, fx as int, fy as int, u as int, v as int),
        -ONE <= value <= ONE,
{
    proof {
        reveal(cell_value);
    }
    let x1: u32 = cx.wrapping_add(1);
    let y1: u32 = cy.wrapping_add(1);
    let n00 = dot_grid_gradient(seed, cx, cy, fx, fy);
    let n10 = dot_grid_gradient(seed, x1, cy, fx - ONE, fy);
    let ix0 = interpolate(n00, n10, u);
    let n01 = dot_grid_gradient(seed, cx, y1, fx, fy - ONE);
    let n11 = dot_grid_gradient(seed, x1, y1, fx - ONE, fy - ONE);
    let ix1 = interpolate(n01, n11, u);
    interpolate(ix0, ix1, v)
}

/// Gradient noise at the fixed-point coordinates `(x, y)`, blended with the
/// fade curve inside each cell.
pub fn perlin(seed: u32, x: i64, y: i64) -> (value: i64)
    ensures
        value == perlin_spec(seed, x as int, y as int),
        -ONE <= value <= ONE,
{
    let sx = frac(x);
    let sy = frac(y);
    cell_noise(seed, cell(x), cell(y), sx, sy, fade(sx), fade(sy))
}

/// The coordinate `x` at the frequency `frequency`.
pub open spec fn scaled(x: int, frequency: int) -> int {
    (x * frequency) / (ONE as int)
}

/// `value` held to the range from minus one to one.
pub open spec fn clamp_unit(value: int) -> int {
    if value < -ONE {
        -ONE as int
    } else if value > ONE {
        ONE as int
    } else {
        value
    }
}

/// Two to the power `k`.
pub open spec fn two_to(k: nat) -> int
    decreases k,
{
    if k == 0 {
        1
    } else {
        2 * two_to((k - 1) as nat)
    }
}

/// Powers of two grow with the exponent, and the sixteenth is 65536.
pub proof fn lemma_two_to_bounded(k: nat)
    requires
        k <= 16,
    ensures
        1 <= two_to(k) <= 0x1_0000,
    decreases 16 - k,
{
    if k == 16 {
        reveal_with_fuel(two_to, 17);
    } else {
        lemma_two_to_bounded(k + 1);
    }
}

/// Moving a number up by 2^112 before it is divided by 65536 keeps the
/// place in the cell and the cell of the quotient.
proof fn lemma_raised_point(product: int)
    ensures
        ({
            let point = (product + 0x1_0000_0000_0000_0000_0000_0000_0000) / 0x1_0000;
            &&& point == product / 0x1_0000 + 0x1_0000_0000_0000_0000_0000_0000
            &&& frac_of(point) == frac_of(product / 0x1_0000)
            &&& cell_of(point) == cell_of(product / 0x1_0000)
        }),
{
    let lifted = product / 0x1_0000;
    vstd::arithmetic::div_mod::lemma_hoist_over_denominator(
        product,
        0x1_0000_0000_0000_0000_0000_0000,
        0x1_0000nat,
    );
    vstd::arithmetic::div_mod::lemma_mod_multiples_vanish(
        0x1_0000_0000_0000_0000_0000,
        lifted,
        0x1_0000,
    );
    vstd::arithmetic::div_mod::lemma_hoist_over_denominator(
        lifted,
        0x1_0000_0000_0000_0000_0000,
        0x1_0000nat,
    );
    vstd::arithmetic::div_mod::lemma_mod_multiples_vanish(
        0x1_0000_0000_0000,
        lifted / 0x1_0000,
        0x1_0000_0000,
    );
}

/// The cell and the place inside it of the coordinate `x` at the frequency
/// `frequency`.
pub fn scale_cell(x: i64, frequency: i64) -> (place: (u32, i64))
    requires
        0 <= frequency <= MAX_FREQUENCY * 0x1_0000,
    ensures
        place.0 == cell_of(scaled(x as int, frequency as int)),
        place.1 == frac_of(scaled(x as int, frequency as int)),
        0 <= place.1 < ONE,
{
    assert(-0x8000_0000_0000_0000 * 0x1_0000_0000_0000 <= x * frequency <= 0x8000_0000_0000_0000
        * 0x1_0000_0000_0000) by (nonlinear_arith)
        requires
            0 <= frequency <= 0x1_0000_0000_0000,
            -0x8000_0000_0000_0000 <= x <= 0x8000_0000_0000_0000,
    ;
    let product: i128 = (x as i128) * (frequency as i128);
    proof {
        lemma_raised_point(product as int);
    }
    // Moving the product up by a multiple of 2^48 keeps the cell and the
    // place inside it, and lets the divisions round down.
    let raised: i128 = product + 0x1_0000_0000_0000_0000_0000_0000_0000;
    let point: i128 = raised / 0x1_0000;
    let part: i128 = point % 0x1_0000;
    let whole: i128 = (point / 0x1_0000) % 0x1_0000_0000;
    (whole as u32, part as i64)
}

/// The amplitude of the octave after one of amplitude `amplitude`.
pub fn decay(amplitude: i64, persistence: i64) -> (next: i64)
    requires
        0 <= amplitude <= ONE,
        0 <= persistence <= ONE,
    ensures
        next == (amplitude * persistence) / (ONE as int),
        0 <= next <= amplitude,
{
    assert(0 <= amplitude * persistence <= 0x1_0000 * amplitude) by (nonlinear_arith)
        requires
            0 <= amplitude,
            0 <= persistence <= 0x1_0000,
    ;
    let decayed: i64 = amplitude * persistence;
    let next: i64 = decayed >> 16;
    assert(decayed >> 16 == decayed / 65536) by (bit_vector);
    next
}

/// Each octave has twice the frequency of the one before, and none of the
/// first seventeen exceeds `MAX_FREQUENCY` times 65536.
pub proof fn lemma_frequency_doubles(base: int, k: nat)
    requires
        0 <= base <= MAX_FREQUENCY,
        k < 16,
    ensures
        base * two_to(k + 1) == 2 * (base * two_to(k)),
        0 <= base * two_to(k) <= MAX_FREQUENCY * 0x8000,
        0 <= base * two_to(k + 1) <= MAX_FREQUENCY * 0x1_0000,
{
    lemma_two_to_bounded(k);
    lemma_two_to_bounded(k + 1);
    let p = two_to(k);
    assert(two_to(k + 1) == 2 * p);
    assert(base * (2 * p) == 2 * (base * p)) by (nonlinear_arith);
    assert(0 <= base * p <= 0x1_0000_0000 * 0x8000) by (nonlinear_arith)
        requires
            0 <= base <= 0x1_0000_0000,
            1 <= p,
            2 * p <= 0x1_0000,
    ;
}

/// The value `noise` at the amplitude `amplitude`.
pub fn amplify(amplitude: i64, noise: i64) -> (term: i64)
    requires
        0 <= amplitude <= ONE,
        -ONE <= noise <= ONE,
    ensures
        term == (amplitude * noise) / (ONE as int),
        -ONE <= term <= ONE,
{
    assert(-0x1_0000 * 0x1_0000 <= amplitude * noise <= 0x1_0000 * 0x1_0000) by (nonlinear_arith)
        requires
            0 <= amplitude <= 0x1_0000,
            -0x1_0000 <= noise <= 0x1_0000,
    ;
    let product: i64 = amplitude * noise;
    let term: i64 = product >> 16;
    assert(product >> 16 == product / 65536) by (bit_vector);
    term
}

/// The octaves that are summed when `num_octaves` are asked for: none for
/// a negative number, and never more than `MAX_OCTAVES`.
pub open spec fn held_octaves(num_octaves: i32) -> nat {
    if num_octaves < 0 {
        0
    } else if num_octaves > MAX_OCTAVES {
        MAX_OCTAVES as nat
    } else {
        num_octaves as nat
    }
}

/// The octaves that are summed when `num_octaves` are asked for.
pub fn hold_octaves(num_octaves: i32) -> (octaves: u32)
    ensures
        octaves == held_octaves(num_octaves),
        octaves <= MAX_OCTAVES,
{
    if num_octaves < 0 {
        0
    } else if num_octaves > 16 {
        MAX_OCTAVES
    } else {
        num_octaves as u32
    }
}

/// The amplitude of octave `k` of [`perlin_noise2d`]: each octave has half
/// the amplitude of the one before.
pub open spec fn perlin_amplitude(k: nat) -> int
    decreases k,
{
    if k == 0 {
        PERLIN_AMPLITUDE as int
    } else {
        (perlin_amplitude((k - 1) as nat) * (ONE / 2)) / (ONE as int)
    }
}

/// What octave `k` adds to [`perlin_noise2d`] at `(x, y)`.
pub open spec fn perlin_octave(seed: u32, x: int, y: int, k: nat) -> int {
    let frequency = PERLIN_FREQUENCY * two_to(k);
    (perlin_amplitude(k) * perlin_spec(seed, scaled(x, frequency), scaled(y, frequency))) / (
    ONE as int)
}

/// The sum of the first `count` octaves of [`perlin_noise2d`] at `(x, y)`.
pub open spec fn perlin_total(seed: u32, x: int, y: int, count: nat) -> int
    decreases count,
{
    if count == 0 {
        0
    } else {
        perlin_total(seed, x, y, (count - 1) as nat) + perlin_octave(
            seed,
            x,
            y,
            (count - 1) as nat,
        )
    }
}

/// Octaves of gradient noise at `(x, y)` with the settings of
/// [`perlin_noise2d`], held to the range from minus one to one.
pub open spec fn perlin_noise2d_spec(seed: u32, x: int, y: int, num_octaves: i32) -> int {
    clamp_unit(perlin_total(seed, x, y, held_octaves(num_octaves)))
}

/// Octaves of gradient noise at the fixed-point coordinates `(x, y)`: the
/// first at a twentieth of a cell to the unit and
/// a tenth in amplitude, each further one at twice the frequency and half
/// the amplitude. The sum is held to the range from minus one to one.
pub fn perlin_noise2d(seed: u32, x: i64, y: i64, num_octaves: i32) -> (value: i64)
    ensures
        value == perlin_noise2d_spec(seed, x as int, y as int, num_octaves),
        -ONE <= value <= ONE,
{
    let octaves = hold_octaves(num_octaves);
    let mut result: i64 = 0;
    let mut amplitude: i64 = PERLIN_AMPLITUDE;
    let mut frequency: i64 = PERLIN_FREQUENCY;
    let mut k: u32 = 0;
    while k < octaves
        invariant
            k <= octaves <= MAX_OCTAVES,
            amplitude == perlin_amplitude(k as nat),
            0 <= amplitude <= ONE,
            frequency == PERLIN_FREQUENCY * two_to(k as nat),
            result == perlin_total(seed, x as int, y as int, k as nat),
            -0x1_0000 * k <= result <= 0x1_0000 * k,
        decreases octaves - k,
    {
        proof {
            lemma_frequency_doubles(PERLIN_FREQUENCY as int, k as nat);
        }
        let (cx, sx) = scale_cell(x, frequency);
        let (cy, sy) = scale_cell(y, frequency);
        let n = amplify(amplitude, cell_noise(seed, cx, cy, sx, sy, fade(sx), fade(sy)));
        result = result + n;
        amplitude = decay(amplitude, ONE / 2);
        frequency = 2 * frequency;
        k = k + 1;
    }
    if result < -ONE {
        -ONE
    } else if result > ONE {
        ONE
    } else {
        result
    }
}

} // verus!

//! The noise field: gradient noise with a smooth fade inside each cell, in
//! two and three dimensions, summed over octaves.

use vstd::prelude::*;
use crate::noise::fade::{fade, fade_spec, lemma_fade_half, lemma_fade_range, lemma_fade_step};
use crate::noise::perlin::{
    amplify,
    cell,
    cell_noise,
    cell_of,
    cell_value,
    clamp_unit,
    decay,
    dot_grid_gradient_spec,
    frac,
    frac_of,
    gradient_at,
    held_octaves,
    hold_octaves,
    interpolate,
    interpolate_spec,
    lattice_hash,
    lemma_cell_value_bounded,
    lemma_dot_grid_gradient_bounded,
    lemma_dot_grid_gradient_step,
    lemma_frequency_doubles,
    lemma_interpolate_between,
    lemma_interpolate_near,
    lemma_interpolate_weighted,
    lemma_product_bounded,
    lemma_quotients_near,
    lemma_axis_products,
    lemma_axis_square,
    lemma_dot_with_axis,
    perlin_spec,
    next_cell,
    scale_cell,
    scaled,
    scramble,
    scramble_spec,
    two_to,
    MAX_FREQUENCY,
    MAX_OCTAVES,
    ONE,
    VALUE_LIMIT,
};

verus! {

/// Gradient noise at `(x, y)`, blended with the fade curve inside each
/// cell.
pub open spec fn noise2d_spec(seed: u32, x: int, y: int) -> int {
    cell_value(
        seed,
        cell_of(x),
        cell_of(y),
        frac_of(x),
        frac_of(y),
        fade_spec(frac_of(x)),
        fade_spec(frac_of(y)),
    )
}

/// The noise of the cell `(cx, cy)` at the point that lies `(fx, fy)` into
/// it, where `fx` and `fy` go from zero up to and including one: the cell
/// with its border.
pub open spec fn noise_in_cell(seed: u32, cx: int, cy: int, fx: int, fy: int) -> int {
    cell_value(seed, cx, cy, fx, fy, fade_spec(fx), fade_spec(fy))
}

/// The noise at a point is the noise of the cell that holds the point.
pub proof fn lemma_noise_is_noise_in_cell(seed: u32, x: int, y: int)
    ensures
        noise2d_spec(seed, x, y) == noise_in_cell(
            seed,
            cell_of(x),
            cell_of(y),
            frac_of(x),
            frac_of(y),
        ),
        0 <= cell_of(x) < 0x1_0000_0000,
        0 <= cell_of(y) < 0x1_0000_0000,
        0 <= frac_of(x) < ONE,
        0 <= frac_of(y) < ONE,
{
}

/// The noise does not jump where two cells meet along x: on their common
/// border the cell on the left and the cell on the right give the same
/// value.
pub proof fn lemma_noise_meets_across_x(seed: u32, cx: int, cy: int, fy: int)
    requires
        0 <= cx < 0x1_0000_0000,
        0 <= cy < 0x1_0000_0000,
    ensures
        noise_in_cell(seed, cx, cy, ONE as int, fy) == noise_in_cell(
            seed,
            next_cell(cx),
            cy,
            0,
            fy,
        ),
{
    reveal(cell_value);
    let one = ONE as int;
    let v = fade_spec(fy);
    let x0 = cx as u32;
    let x1 = next_cell(cx) as u32;
    let x2 = next_cell(next_cell(cx)) as u32;
    let y0 = cy as u32;
    let y1 = next_cell(cy) as u32;
    lemma_fade_range(0);
    lemma_fade_range(one);
    let left_low = dot_grid_gradient_spec(seed, x0, y0, one, fy);
    let shared_low = dot_grid_gradient_spec(seed, x1, y0, 0, fy);
    let right_low = dot_grid_gradient_spec(seed, x2, y0, 0 - one, fy);
    let left_high = dot_grid_gradient_spec(seed, x0, y1, one, fy - one);
    let shared_high = dot_grid_gradient_spec(seed, x1, y1, 0, fy - one);
    let right_high = dot_grid_gradient_spec(seed, x2, y1, 0 - one, fy - one);
    lemma_interpolate_between(left_low, shared_low, one);
    lemma_interpolate_between(left_high, shared_high, one);
    lemma_interpolate_between(shared_low, right_low, 0);
    lemma_interpolate_between(shared_high, right_high, 0);
}

/// The noise does not jump where two cells meet along y.
pub proof fn lemma_noise_meets_across_y(seed: u32, cx: int, cy: int, fx: int)
    requires
        0 <= cx < 0x1_0000_0000,
        0 <= cy < 0x1_0000_0000,
    ensures
        noise_in_cell(seed, cx, cy, fx, ONE as int) == noise_in_cell(
            seed,
            cx,
            next_cell(cy),
            fx,
            0,
        ),
{
    reveal(cell_value);
    let one = ONE as int;
    let u = fade_spec(fx);
    let x0 = cx as u32;
    let x1 = next_cell(cx) as u32;
    let y0 = cy as u32;
    let y1 = next_cell(cy) as u32;
    let y2 = next_cell(next_cell(cy)) as u32;
    lemma_fade_range(0);
    lemma_fade_range(one);
    let low = interpolate_spec(
        dot_grid_gradient_spec(seed, x0, y0, fx, one),
        dot_grid_gradient_spec(seed, x1, y0, fx - one, one),
        u,
    );
    let shared = interpolate_spec(
        dot_grid_gradient_spec(seed, x0, y1, fx, 0),
        dot_grid_gradient_spec(seed, x1, y1, fx - one, 0),
        u,
    );
    let high = interpolate_spec(
        dot_grid_gradient_spec(seed, x0, y2, fx, 0 - one),
        dot_grid_gradient_spec(seed, x1, y2, fx - one, 0 - one),
        u,
    );
    lemma_interpolate_between(low, shared, one);
    lemma_interpolate_between(shared, high, 0);
}

/// Inside a cell the noise moves by at most five from one point to the
/// next along x.
pub proof fn lemma_noise_step_x(seed: u32, cx: int, cy: int, fx: int, fy: int)
    requires
        0 <= fx < ONE,
        0 <= fy <= ONE,
    ensures
        -NOISE_STEP <= noise_in_cell(seed, cx, cy, fx + 1, fy) - noise_in_cell(seed, cx, cy, fx, fy)
            <= NOISE_STEP,
{
    reveal(cell_value);
    let one = ONE as int;
    let x0 = cx as u32;
    let y0 = cy as u32;
    let x1 = next_cell(cx) as u32;
    let y1 = next_cell(cy) as u32;
    let u = fade_spec(fx);
    let u_next = fade_spec(fx + 1);
    let v = fade_spec(fy);
    lemma_fade_range(fx);
    lemma_fade_range(fx + 1);
    lemma_fade_range(fy);
    lemma_fade_step(fx);
    let n00 = dot_grid_gradient_spec(seed, x0, y0, fx, fy);
    let n10 = dot_grid_gradient_spec(seed, x1, y0, fx - one, fy);
    let n01 = dot_grid_gradient_spec(seed, x0, y1, fx, fy - one);
    let n11 = dot_grid_gradient_spec(seed, x1, y1, fx - one, fy - one);
    let m00 = dot_grid_gradient_spec(seed, x0, y0, fx + 1, fy);
    let m10 = dot_grid_gradient_spec(seed, x1, y0, fx + 1 - one, fy);
    let m01 = dot_grid_gradient_spec(seed, x0, y1, fx + 1, fy - one);
    let m11 = dot_grid_gradient_spec(seed, x1, y1, fx + 1 - one, fy - one);
    lemma_dot_grid_gradient_step(seed, x0, y0, fx, fy);
    lemma_dot_grid_gradient_step(seed, x1, y0, fx - one, fy);
    lemma_dot_grid_gradient_step(seed, x0, y1, fx, fy - one);
    lemma_dot_grid_gradient_step(seed, x1, y1, fx - one, fy - one);
    lemma_dot_grid_gradient_bounded(seed, x0, y0, fx, fy);
    lemma_dot_grid_gradient_bounded(seed, x1, y0, fx - one, fy);
    lemma_dot_grid_gradient_bounded(seed, x0, y1, fx, fy - one);
    lemma_dot_grid_gradient_bounded(seed, x1, y1, fx - one, fy - one);
    let low = interpolate_spec(n00, n10, u);
    let high = interpolate_spec(n01, n11, u);
    let low_next = interpolate_spec(m00, m10, u_next);
    let high_next = interpolate_spec(m01, m11, u_next);
    lemma_interpolate_near(n00, n10, u, m00, m10, u_next, 1, 2);
    lemma_interpolate_near(n01, n11, u, m01, m11, u_next, 1, 2);
    lemma_interpolate_between(n00, n10, u);
    lemma_interpolate_between(n01, n11, u);
    lemma_interpolate_near(low, high, v, low_next, high_next, v, 5, 0);
}

/// Inside a cell the noise moves by at most five from one point to the
/// next along y.
pub proof fn lemma_noise_step_y(seed: u32, cx: int, cy: int, fx: int, fy: int)
    requires
        0 <= fx <= ONE,
        0 <= fy < ONE,
    ensures
        -NOISE_STEP <= noise_in_cell(seed, cx, cy, fx, fy + 1) - noise_in_cell(seed, cx, cy, fx, fy)
            <= NOISE_STEP,
{
    reveal(cell_value);
    let one = ONE as int;
    let x0 = cx as u32;
    let y0 = cy as u32;
    let x1 = next_cell(cx) as u32;
    let y1 = next_cell(cy) as u32;
    let u = fade_spec(fx);
    let v = fade_spec(fy);
    let v_next = fade_spec(fy + 1);
    lemma_fade_range(fx);
    lemma_fade_range(fy);
    lemma_fade_range(fy + 1);
    lemma_fade_step(fy);
    let n00 = dot_grid_gradient_spec(seed, x0, y0, fx, fy);
    let n10 = dot_grid_gradient_spec(seed, x1, y0, fx - one, fy);
    let n01 = dot_grid_gradient_spec(seed, x0, y1, fx, fy - one);
    let n11 = dot_grid_gradient_spec(seed, x1, y1, fx - one, fy - one);
    let m00 = dot_grid_gradient_spec(seed, x0, y0, fx, fy + 1);
    let m10 = dot_grid_gradient_spec(seed, x1, y0, fx - one, fy + 1);
    let m01 = dot_grid_gradient_spec(seed, x0, y1, fx, fy + 1 - one);
    let m11 = dot_grid_gradient_spec(seed, x1, y1, fx - one, fy + 1 - one);
    lemma_dot_grid_gradient_step(seed, x0, y0, fx, fy);
    lemma_dot_grid_gradient_step(seed, x1, y0, fx - one, fy);
    lemma_dot_grid_gradient_step(seed, x0, y1, fx, fy - one);
    lemma_dot_grid_gradient_step(seed, x1, y1, fx - one, fy - one);
    lemma_dot_grid_gradient_bounded(seed, x0, y0, fx, fy);
    lemma_dot_grid_gradient_bounded(seed, x1, y0, fx - one, fy);
    lemma_dot_grid_gradient_bounded(seed, x0, y1, fx, fy - one);
    lemma_dot_grid_gradient_bounded(seed, x1, y1, fx - one, fy - one);
    let low = interpolate_spec(n00, n10, u);
    let high = interpolate_spec(n01, n11, u);
    let low_next = interpolate_spec(m00, m10, u);
    let high_next = interpolate_spec(m01, m11, u);
    lemma_interpolate_near(n00, n10, u, m00, m10, u, 1, 0);
    lemma_interpolate_near(n01, n11, u, m01, m11, u, 1, 0);
    lemma_interpolate_between(n00, n10, u);
    lemma_interpolate_between(n01, n11, u);
    lemma_interpolate_near(low, high, v, low_next, high_next, v_next, 1, 2);
}

/// The noise is continuous: from one point to the next, along x or along
/// y, inside a cell or across the border between two cells, it moves by at
/// most five of the 65536 parts of one.
pub proof fn lemma_noise_continuous(seed: u32, x: int, y: int)
    ensures
        -NOISE_STEP <= noise2d_spec(seed, x + 1, y) - noise2d_spec(seed, x, y) <= NOISE_STEP,
        -NOISE_STEP <= noise2d_spec(seed, x, y + 1) - noise2d_spec(seed, x, y) <= NOISE_STEP,
{
    let one = ONE as int;
    let cx = cell_of(x);
    let cy = cell_of(y);
    let fx = frac_of(x);
    let fy = frac_of(y);
    lemma_noise_step_x(seed, cx, cy, fx, fy);
    lemma_noise_step_y(seed, cx, cy, fx, fy);
    if fx == one - 1 {
        lemma_noise_meets_across_x(seed, cx, cy, fy);
        assert(cell_of(x + 1) == next_cell(cx) && frac_of(x + 1) == 0);
    } else {
        assert(cell_of(x + 1) == cx && frac_of(x + 1) == fx + 1);
    }
    if fy == one - 1 {
        lemma_noise_meets_across_y(seed, cx, cy, fx);
        assert(cell_of(y + 1) == next_cell(cy) && frac_of(y + 1) == 0);
    } else {
        assert(cell_of(y + 1) == cy && frac_of(y + 1) == fy + 1);
    }
}

/// [`perlin`](crate::noise::perlin::perlin) is the same noise, and so is
/// continuous in the same way and bounded by one.
pub proof fn lemma_perlin_continuous(seed: u32, x: int, y: int)
    ensures
        perlin_spec(seed, x, y) == noise2d_spec(seed, x, y),
        -NOISE_STEP <= perlin_spec(seed, x + 1, y) - perlin_spec(seed, x, y) <= NOISE_STEP,
        -NOISE_STEP <= perlin_spec(seed, x, y + 1) - perlin_spec(seed, x, y) <= NOISE_STEP,
        -ONE <= perlin_spec(seed, x, y) <= ONE,
{
    lemma_noise_continuous(seed, x, y);
    lemma_noise_bounded(seed, x, y);
}

/// At every point of the lattice the noise is zero.
pub proof fn lemma_noise_zero_on_lattice(seed: u32, x: int, y: int)
    requires
        frac_of(x) == 0,
        frac_of(y) == 0,
    ensures
        noise2d_spec(seed, x, y) == 0,
{
    reveal(cell_value);
    let one = ONE as int;
    let x0 = cell_of(x) as u32;
    let y0 = cell_of(y) as u32;
    let x1 = next_cell(cell_of(x)) as u32;
    let y1 = next_cell(cell_of(y)) as u32;
    lemma_fade_range(0);
    lemma_dot_with_axis(seed, x0, y0, 0, 0);
    let n00 = dot_grid_gradient_spec(seed, x0, y0, 0, 0);
    let n10 = dot_grid_gradient_spec(seed, x1, y0, 0 - one, 0);
    let n01 = dot_grid_gradient_spec(seed, x0, y1, 0, 0 - one);
    let n11 = dot_grid_gradient_spec(seed, x1, y1, 0 - one, 0 - one);
    assert(n00 == 0);
    lemma_interpolate_between(n00, n10, 0);
    lemma_interpolate_between(n01, n11, 0);
    lemma_interpolate_between(n00, n01, 0);
}

/// The most by which the noise moves from one point to the next along an
/// axis.
pub const NOISE_STEP: i64 = 5;

/// The greatest magnitude of the noise: seven eighths.
pub const NOISE_LIMIT: i64 = 57344;

/// The noise of a cell never exceeds seven eighths in magnitude: the corner
/// nearest to the point weighs at least a quarter, and the dot product
/// there is at most one half.
pub proof fn lemma_noise_in_cell_bounded(seed: u32, cx: int, cy: int, fx: int, fy: int)
    requires
        0 <= fx <= ONE,
        0 <= fy <= ONE,
    ensures
        -NOISE_LIMIT <= noise_in_cell(seed, cx, cy, fx, fy) <= NOISE_LIMIT,
{
    reveal(cell_value);
    let one = ONE as int;
    let half = one / 2;
    let x0 = cx as u32;
    let y0 = cy as u32;
    let x1 = next_cell(cx) as u32;
    let y1 = next_cell(cy) as u32;
    let u = fade_spec(fx);
    let v = fade_spec(fy);
    lemma_fade_range(fx);
    lemma_fade_range(fy);
    lemma_fade_half(fx);
    lemma_fade_half(fy);
    let n00 = dot_grid_gradient_spec(seed, x0, y0, fx, fy);
    let n10 = dot_grid_gradient_spec(seed, x1, y0, fx - one, fy);
    let n01 = dot_grid_gradient_spec(seed, x0, y1, fx, fy - one);
    let n11 = dot_grid_gradient_spec(seed, x1, y1, fx - one, fy - one);
    lemma_dot_with_axis(seed, x0, y0, fx, fy);
    lemma_dot_with_axis(seed, x1, y0, fx - one, fy);
    lemma_dot_with_axis(seed, x0, y1, fx, fy - one);
    lemma_dot_with_axis(seed, x1, y1, fx - one, fy - one);
    let low = interpolate_spec(n00, n10, u);
    let high = interpolate_spec(n01, n11, u);
    lemma_interpolate_between(n00, n10, u);
    lemma_interpolate_between(n01, n11, u);
    assert(one == 0x1_0000 && half == 0x8000);
    if fy <= half {
        if fx <= half {
            lemma_interpolate_weighted(n00, n10, u, 0x8000, 0x1_0000);
            assert((one - u) * 0x8000 + u * 0x1_0000 <= 0xC000 * one);
        } else {
            lemma_interpolate_weighted(n00, n10, u, 0x1_0000, 0x8000);
            assert((one - u) * 0x1_0000 + u * 0x8000 <= 0xC000 * one);
        }
        assert(-0xC000 <= low <= 0xC000);
        lemma_interpolate_weighted(low, high, v, 0xC000, 0x1_0000);
        assert((one - v) * 0xC000 + v * 0x1_0000 <= 0xE000 * one);
    } else {
        if fx <= half {
            lemma_interpolate_weighted(n01, n11, u, 0x8000, 0x1_0000);
            assert((one - u) * 0x8000 + u * 0x1_0000 <= 0xC000 * one);
        } else {
            lemma_interpolate_weighted(n01, n11, u, 0x1_0000, 0x8000);
            assert((one - u) * 0x1_0000 + u * 0x8000 <= 0xC000 * one);
        }
        assert(-0xC000 <= high <= 0xC000);
        lemma_interpolate_weighted(low, high, v, 0x1_0000, 0xC000);
        assert((one - v) * 0x1_0000 + v * 0xC000 <= 0xE000 * one);
    }
}

/// The noise lies between minus seven eighths and seven eighths, and so
/// between minus one and one.
pub proof fn lemma_noise_within_limit(seed: u32, x: int, y: int)
    ensures
        -NOISE_LIMIT <= noise2d_spec(seed, x, y) <= NOISE_LIMIT,
        -NOISE_LIMIT <= perlin_spec(seed, x, y) <= NOISE_LIMIT,
{
    lemma_noise_in_cell_bounded(seed, cell_of(x), cell_of(y), frac_of(x), frac_of(y));
}

/// The noise lies between minus one and one.
pub proof fn lemma_noise_bounded(seed: u32, x: int, y: int)
    ensures
        -ONE <= noise2d_spec(seed, x, y) <= ONE,
{
    lemma_fade_range(frac_of(x));
    lemma_fade_range(frac_of(y));
    lemma_cell_value_bounded(
        seed,
        cell_of(x),
        cell_of(y),
        frac_of(x),
        frac_of(y),
        fade_spec(frac_of(x)),
        fade_spec(frac_of(y)),
    );
}

/// The value at `t` of the line that is `a1` at zero and `a2` at one.
pub fn lerp(t: i64, a1: i64, a2: i64) -> (value: i64)
    requires
        0 <= t <= ONE,
        -VALUE_LIMIT <= a1 <= VALUE_LIMIT,
        -VALUE_LIMIT <= a2 <= VALUE_LIMIT,
    ensures
        value == interpolate_spec(a1 as int, a2 as int, t as int),
        a1 <= a2 ==> a1 <= value <= a2,
        a2 <= a1 ==> a2 <= value <= a1,
{
    interpolate(a1, a2, t)
}

/// Gradient noise at the fixed-point coordinates `(x, y)`, blended with the
/// fade curve inside each cell.
pub fn noise2d(seed: u32, x: i64, y: i64) -> (value: i64)
    ensures
        value == noise2d_spec(seed, x as int, y as int),
        -NOISE_LIMIT <= value <= NOISE_LIMIT,
        -ONE <= value <= ONE,
{
    proof {
        lemma_noise_within_limit(seed, x as int, y as int);
    }
    let xf = frac(x);
    let yf = frac(y);
    let u = fade(xf);
    let v = fade(yf);
    cell_noise(seed, cell(x), cell(y), xf, yf, u, v)
}

/// A vector in space: a gradient, or the offset from a lattice point to a
/// sample point.
#[derive(Clone, Copy, Debug, PartialEq, Eq, Structural)]
pub struct Vector3 {
    pub x: i64,
    pub y: i64,
    pub z: i64,
}

/// Whether `gradient` is one of the six unit vectors along the axes.
pub open spec fn is_axis_unit3(gradient: Vector3) -> bool {
    ||| (gradient.x == ONE && gradient.y == 0 && gradient.z == 0)
    ||| (gradient.x == -ONE && gradient.y == 0 && gradient.z == 0)
    ||| (gradient.x == 0 && gradient.y == ONE && gradient.z == 0)
    ||| (gradient.x == 0 && gradient.y == -ONE && gradient.z == 0)
    ||| (gradient.x == 0 && gradient.y == 0 && gradient.z == ONE)
    ||| (gradient.x == 0 && gradient.y == 0 && gradient.z == -ONE)
}

/// The unit vector that `v` selects by its four lowest bits: one of the six
/// directions along the axes.
pub open spec fn gradient3d(v: i32) -> Vector3 {
    let h = v & 15i32;
    if h < 3 {
        Vector3 { x: ONE, y: 0i64, z: 0i64 }
    } else if h < 6 {
        Vector3 { x: (-ONE) as i64, y: 0i64, z: 0i64 }
    } else if h < 9 {
        Vector3 { x: 0i64, y: ONE, z: 0i64 }
    } else if h < 12 {
        Vector3 { x: 0i64, y: (-ONE) as i64, z: 0i64 }
    } else if h < 14 {
        Vector3 { x: 0i64, y: 0i64, z: ONE }
    } else {
        Vector3 { x: 0i64, y: 0i64, z: (-ONE) as i64 }
    }
}

/// The gradient of the lattice point `(ix, iy, iz)`: the direction that
/// the four highest bits of the point's hash select.
pub open spec fn gradient_at3(seed: u32, ix: u32, iy: u32, iz: u32) -> Vector3 {
    gradient3d((scramble_spec(lattice_hash(seed, ix, iy), iz) >> 28u32) as i32)
}

/// Every gradient in space is a unit vector: its squared length is one.
pub proof fn lemma_gradient3_is_unit(seed: u32, ix: u32, iy: u32, iz: u32)
    ensures
        is_axis_unit3(gradient_at3(seed, ix, iy, iz)),
        gradient_at3(seed, ix, iy, iz).x * gradient_at3(seed, ix, iy, iz).x + gradient_at3(
            seed,
            ix,
            iy,
            iz,
        ).y * gradient_at3(seed, ix, iy, iz).y + gradient_at3(seed, ix, iy, iz).z * gradient_at3(
            seed,
            ix,
            iy,
            iz,
        ).z == ONE * ONE,
{
    let gradient = gradient_at3(seed, ix, iy, iz);
    let (x, y, z) = (gradient.x as int, gradient.y as int, gradient.z as int);
    assert(is_axis_unit3(gradient));
    lemma_axis_square(x);
    lemma_axis_square(y);
    lemma_axis_square(z);
}

/// The dot product of the gradient at the lattice point `(ix, iy, iz)` with
/// the offset `(dx, dy, dz)` from that point to the sample point.
pub open spec fn dot_grid_gradient3_spec(
    seed: u32,
    ix: u32,
    iy: u32,
    iz: u32,
    dx: int,
    dy: int,
    dz: int,
) -> int {
    let gradient = gradient_at3(seed, ix, iy, iz);
    (gradient.x * dx + gradient.y * dy + gradient.z * dz) / (ONE as int)
}

/// What the dot product with a unit vector along an axis is: the offset
/// along that axis, or its negative.
pub proof fn lemma_dot_with_axis3(
    seed: u32,
    ix: u32,
    iy: u32,
    iz: u32,
    dx: int,
    dy: int,
    dz: int,
)
    ensures
        is_axis_unit3(gradient_at3(seed, ix, iy, iz)),
        ({
            let gradient = gradient_at3(seed, ix, iy, iz);
            dot_grid_gradient3_spec(seed, ix, iy, iz, dx, dy, dz) == if gradient.x == ONE {
                dx
            } else if gradient.x == -ONE {
                -dx
            } else if gradient.y == ONE {
                dy
            } else if gradient.y == -ONE {
                -dy
            } else if gradient.z == ONE {
                dz
            } else {
                -dz
            }
        }),
{
    let gradient = gradient_at3(seed, ix, iy, iz);
    lemma_axis_products(gradient.x as int, dx);
    lemma_axis_products(gradient.y as int, dy);
    lemma_axis_products(gradient.z as int, dz);
}

/// The noise in the plane `z = cz` of the lattice, at the point that lies
/// `(fx, fy)` into the cell `(cx, cy)` and `dz` above the plane, blended
/// with the weights `u` along x and `v` along y.
pub open spec fn layer_value(
    seed: u32,
    cx: int,
    cy: int,
    cz: int,
    fx: int,
    fy: int,
    dz: int,
    u: int,
    v: int,
) -> int {
    let x0 = cx as u32;
    let y0 = cy as u32;
    let z0 = cz as u32;
    let x1 = next_cell(cx) as u32;
    let y1 = next_cell(cy) as u32;
    let one = ONE as int;
    let n00 = dot_grid_gradient3_spec(seed, x0, y0, z0, fx, fy, dz);
    let n10 = dot_grid_gradient3_spec(seed, x1, y0, z0, fx - one, fy, dz);
    let n01 = dot_grid_gradient3_spec(seed, x0, y1, z0, fx, fy - one, dz);
    let n11 = dot_grid_gradient3_spec(seed, x1, y1, z0, fx - one, fy - one, dz);
    interpolate_spec(interpolate_spec(n00, n10, u), interpolate_spec(n01, n11, u), v)
}

/// Gradient noise at `(x, y, z)`, blended with the fade curve inside each
/// cell: the blend, along z, of the noise in the two planes of the lattice
/// that the point lies between.
pub open spec fn noise3d_spec(seed: u32, x: int, y: int, z: int) -> int {
    let u = fade_spec(frac_of(x));
    let v = fade_spec(frac_of(y));
    let w = fade_spec(frac_of(z));
    let below = layer_value(
        seed,
        cell_of(x),
        cell_of(y),
        cell_of(z),
        frac_of(x),
        frac_of(y),
        frac_of(z),
        u,
        v,
    );
    let above = layer_value(
        seed,
        cell_of(x),
        cell_of(y),
        next_cell(cell_of(z)),
        frac_of(x),
        frac_of(y),
        frac_of(z) - ONE,
        u,
        v,
    );
    interpolate_spec(below, above, w)
}

/// The unit vector that `v` selects by its four lowest bits.
pub fn get_gradient_vector3d(v: i32) -> (gradient: Vector3)
    ensures
        gradient == gradient3d(v),
        is_axis_unit3(gradient),
{
    let h: i32 = v & 15;
    if h < 3 {
        Vector3 { x: ONE, y: 0, z: 0 }
    } else if h < 6 {
        Vector3 { x: -ONE, y: 0, z: 0 }
    } else if h < 9 {
        Vector3 { x: 0, y: ONE, z: 0 }
    } else if h < 12 {
        Vector3 { x: 0, y: -ONE, z: 0 }
    } else if h < 14 {
        Vector3 { x: 0, y: 0, z: ONE }
    } else {
        Vector3 { x: 0, y: 0, z: -ONE }
    }
}

/// The dot product of the gradient at the lattice point `(ix, iy, iz)` with
/// the offset `(dx, dy, dz)` from that point to the sample point.
pub fn dot_grid_gradient3(seed: u32, ix: u32, iy: u32, iz: u32, dx: i64, dy: i64, dz: i64) -> (dot:
    i64)
    requires
        -ONE <= dx <= ONE,
        -ONE <= dy <= ONE,
        -ONE <= dz <= ONE,
    ensures
        dot == dot_grid_gradient3_spec(seed, ix, iy, iz, dx as int, dy as int, dz as int),
        -ONE <= dot <= ONE,
{
    let hash: u32 = scramble(scramble(scramble(seed, ix), iy), iz);
    let high: u32 = hash >> 28;
    assert(hash >> 28u32 <= 15u32) by (bit_vector);
    let gradient = get_gradient_vector3d(high as i32);
    proof {
        lemma_dot_with_axis3(seed, ix, iy, iz, dx as int, dy as int, dz as int);
    }
    if gradient.x == ONE {
        dx
    } else if gradient.x == -ONE {
        -dx
    } else if gradient.y == ONE {
        dy
    } else if gradient.y == -ONE {
        -dy
    } else if gradient.z == ONE {
        dz
    } else {
        -dz
    }
}

/// The noise in the plane `z = cz` of the lattice.
fn layer_noise(seed: u32, cx: u32, cy: u32, cz: u32, fx: i64, fy: i64, dz: i64, u: i64, v: i64) -> (value:
    i64)
    requires
        0 <= fx <= ONE,
        0 <= fy <= ONE,
        -ONE <= dz <= ONE,
        0 <= u <= ONE,
        0 <= v <= ONE,
    ensures
        value == layer_value(
            seed,
            cx as int,
            cy as int,
            cz as int,
            fx as int,
            fy as int,
            dz as int,
            u as int,
            v as int,
        ),
        -ONE <= value <= ONE,
{
    let x1: u32 = cx.wrapping_add(1);
    let y1: u32 = cy.wrapping_add(1);
    let n00 = dot_grid_gradient3(seed, cx, cy, cz, fx, fy, dz);
    let n10 = dot_grid_gradient3(seed, x1, cy, cz, fx - ONE, fy, dz);
    let ix0 = lerp(u, n00, n10);
    let n01 = dot_grid_gradient3(seed, cx, y1, cz, fx, fy - ONE, dz);
    let n11 = dot_grid_gradient3(seed, x1, y1, cz, fx - ONE, fy - ONE, dz);
    let ix1 = lerp(u, n01, n11);
    lerp(v, ix0, ix1)
}

/// The noise at the point that lies `(xf, yf, zf)` into the cell
/// `(cx, cy, cz)`.
fn cell_noise3(seed: u32, cx: u32, cy: u32, cz: u32, xf: i64, yf: i64, zf: i64) -> (value: i64)
    requires
        0 <= xf < ONE,
        0 <= yf < ONE,
        0 <= zf < ONE,
    ensures
        value == interpolate_spec(
            layer_value(
                seed,
                cx as int,
                cy as int,
                cz as int,
                xf as int,
                yf as int,
                zf as int,
                fade_spec(xf as int),
                fade_spec(yf as int),
            ),
            layer_value(
                seed,
                cx as int,
                cy as int,
                next_cell(cz as int),
                xf as int,
                yf as int,
                zf - ONE,
                fade_spec(xf as int),
                fade_spec(yf as int),
            ),
            fade_spec(zf as int),
        ),
        -ONE <= value <= ONE,
{
    let u = fade(xf);
    let v = fade(yf);
    let w = fade(zf);
    let z1: u32 = cz.wrapping_add(1);
    let below = layer_noise(seed, cx, cy, cz, xf, yf, zf, u, v);
    let above = layer_noise(seed, cx, cy, z1, xf, yf, zf - ONE, u, v);
    lerp(w, below, above)
}

/// Gradient noise at the fixed-point coordinates `(x, y, z)`, blended with
/// the fade curve inside each cell.
pub fn noise3d(seed: u32, x: i64, y: i64, z: i64) -> (value: i64)
    ensures
        value == noise3d_spec(seed, x as int, y as int, z as int),
        -ONE <= value <= ONE,
{
    cell_noise3(seed, cell(x), cell(y), cell(z), frac(x), frac(y), frac(z))
}

/// Whether a noise field can be made of these settings: at most
/// `MAX_OCTAVES` octaves, a base frequency from zero to `MAX_FREQUENCY`, and
/// a persistence from zero to one.
pub open spec fn valid_settings(octaves: u32, frequency: i64, persistence: i64) -> bool {
    &&& octaves <= MAX_OCTAVES
    &&& 0 <= frequency <= MAX_FREQUENCY
    &&& 0 <= persistence <= ONE
}

/// The amplitude of octave `k` where each octave has `persistence` times
/// the amplitude of the one before, and the first has amplitude one.
pub open spec fn octave_amplitude(persistence: int, k: nat) -> int
    decreases k,
{
    if k == 0 {
        ONE as int
    } else {
        (octave_amplitude(persistence, (k - 1) as nat) * persistence) / (ONE as int)
    }
}

/// What octave `k` adds at `(x, y)`.
pub open spec fn octave_value(
    seed: u32,
    frequency: int,
    persistence: int,
    x: int,
    y: int,
    k: nat,
) -> int {
    let at = frequency * two_to(k);
    (octave_amplitude(persistence, k) * noise2d_spec(seed, scaled(x, at), scaled(y, at))) / (
    ONE as int)
}

/// The sum of the first `count` octaves at `(x, y)`.
pub open spec fn octave_total(
    seed: u32,
    frequency: int,
    persistence: int,
    x: int,
    y: int,
    count: nat,
) -> int
    decreases count,
{
    if count == 0 {
        0
    } else {
        octave_total(seed, frequency, persistence, x, y, (count - 1) as nat) + octave_value(
            seed,
            frequency,
            persistence,
            x,
            y,
            (count - 1) as nat,
        )
    }
}

/// The sum of `octaves` octaves at `(x, y)`, held to the range from minus
/// one to one.
pub open spec fn field_value(
    seed: u32,
    octaves: nat,
    frequency: int,
    persistence: int,
    x: int,
    y: int,
) -> int {
    clamp_unit(octave_total(seed, frequency, persistence, x, y, octaves))
}

/// What octave `k` adds at `(x, y, z)`.
pub open spec fn octave_value3(
    seed: u32,
    frequency: int,
    persistence: int,
    x: int,
    y: int,
    z: int,
    k: nat,
) -> int {
    let at = frequency * two_to(k);
    (octave_amplitude(persistence, k) * noise3d_spec(
        seed,
        scaled(x, at),
        scaled(y, at),
        scaled(z, at),
    )) / (ONE as int)
}

/// The sum of the first `count` octaves at `(x, y, z)`.
pub open spec fn octave_total3(
    seed: u32,
    frequency: int,
    persistence: int,
    x: int,
    y: int,
    z: int,
    count: nat,
) -> int
    decreases count,
{
    if count == 0 {
        0
    } else {
        octave_total3(seed, frequency, persistence, x, y, z, (count - 1) as nat) + octave_value3(
            seed,
            frequency,
            persistence,
            x,
            y,
            z,
            (count - 1) as nat,
        )
    }
}

/// The sum of `octaves` octaves at `(x, y, z)`, held to the range from
/// minus one to one.
pub open spec fn field_value3(
    seed: u32,
    octaves: nat,
    frequency: int,
    persistence: int,
    x: int,
    y: int,
    z: int,
) -> int {
    clamp_unit(octave_total3(seed, frequency, persistence, x, y, z, octaves))
}

/// Over `steps` points along x, or along y, the noise moves by at most five
/// for each.
pub proof fn lemma_noise_far(seed: u32, x: int, y: int, steps: nat)
    ensures
        -5 * steps <= noise2d_spec(seed, x + steps, y) - noise2d_spec(seed, x, y) <= 5 * steps,
        -5 * steps <= noise2d_spec(seed, x, y + steps) - noise2d_spec(seed, x, y) <= 5 * steps,
    decreases steps,
{
    if steps > 0 {
        lemma_noise_far(seed, x, y, (steps - 1) as nat);
        lemma_noise_continuous(seed, x + steps - 1, y);
        lemma_noise_continuous(seed, x, y + steps - 1);
    }
}

/// A coordinate that moves by one moves, at the frequency `frequency`, by
/// the whole part of the frequency or by one more.
pub proof fn lemma_scaled_step(x: int, frequency: int)
    requires
        0 <= frequency,
    ensures
        frequency / (ONE as int) <= scaled(x + 1, frequency) - scaled(x, frequency) <= frequency / (
        ONE as int) + 1,
{
    let one = ONE as int;
    let whole = frequency / one;
    let here = x * frequency;
    let next = (x + 1) * frequency;
    assert(next == here + frequency) by (nonlinear_arith)
        requires
            here == x * frequency,
            next == (x + 1) * frequency,
    ;
    vstd::arithmetic::div_mod::lemma_fundamental_div_mod(frequency, one);
    vstd::arithmetic::div_mod::lemma_fundamental_div_mod(here, one);
    vstd::arithmetic::div_mod::lemma_fundamental_div_mod(next, one);
}

/// Every octave has an amplitude between zero and one.
pub proof fn lemma_octave_amplitude_bounded(persistence: int, k: nat)
    requires
        0 <= persistence <= ONE,
    ensures
        0 <= octave_amplitude(persistence, k) <= ONE,
    decreases k,
{
    if k > 0 {
        lemma_octave_amplitude_bounded(persistence, (k - 1) as nat);
        let before = octave_amplitude(persistence, (k - 1) as nat);
        assert(0 <= before * persistence <= before * 0x1_0000) by (nonlinear_arith)
            requires
                0 <= before,
                0 <= persistence <= 0x1_0000,
        ;
    }
}

/// By how much `count` octaves with the base frequency `frequency` can
/// move when a coordinate moves by one: each octave by five for every point
/// that its own coordinate moves, and by one for rounding.
pub open spec fn step_bound(frequency: int, count: nat) -> int
    decreases count,
{
    if count == 0 {
        0
    } else {
        step_bound(frequency, (count - 1) as nat) + 5 * ((frequency * two_to((count - 1) as nat))
            / (ONE as int) + 1) + 1
    }
}

/// An octave moves by at most its share of the step bound when a
/// coordinate moves by one.
proof fn lemma_octave_step(seed: u32, frequency: int, persistence: int, x: int, y: int, k: nat)
    requires
        0 <= frequency,
        0 <= persistence <= ONE,
    ensures
        ({
            let share = 5 * ((frequency * two_to(k)) / (ONE as int) + 1) + 1;
            let here = octave_value(seed, frequency, persistence, x, y, k);
            &&& -share <= octave_value(seed, frequency, persistence, x + 1, y, k) - here <= share
            &&& -share <= octave_value(seed, frequency, persistence, x, y + 1, k) - here <= share
        }),
{
    let one = ONE as int;
    let at = frequency * two_to(k);
    lemma_two_to_positive(k);
    assert(at >= 0) by (nonlinear_arith)
        requires
            at == frequency * two_to(k),
            frequency >= 0,
            two_to(k) >= 1,
    ;
    let amplitude = octave_amplitude(persistence, k);
    lemma_octave_amplitude_bounded(persistence, k);
    let sx = scaled(x, at);
    let sy = scaled(y, at);
    let reach = at / one + 1;
    lemma_scaled_step(x, at);
    lemma_scaled_step(y, at);
    let moved_x = (scaled(x + 1, at) - sx) as nat;
    let moved_y = (scaled(y + 1, at) - sy) as nat;
    lemma_noise_far(seed, sx, sy, moved_x);
    lemma_noise_far(seed, sx, sy, moved_y);
    let here = noise2d_spec(seed, sx, sy);
    let along_x = noise2d_spec(seed, scaled(x + 1, at), sy);
    let along_y = noise2d_spec(seed, sx, scaled(y + 1, at));
    assert(-5 * reach <= along_x - here <= 5 * reach);
    assert(-5 * reach <= along_y - here <= 5 * reach);
    lemma_amplified_near(amplitude, here, along_x, 5 * reach);
    lemma_amplified_near(amplitude, here, along_y, 5 * reach);
}

/// Two to any power is at least one.
proof fn lemma_two_to_positive(k: nat)
    ensures
        two_to(k) >= 1,
    decreases k,
{
    if k > 0 {
        lemma_two_to_positive((k - 1) as nat);
    }
}

/// Values that lie within `reach` of each other lie, at an amplitude of at
/// most one, within `reach + 1` of each other.
proof fn lemma_amplified_near(amplitude: int, first: int, second: int, reach: int)
    requires
        0 <= amplitude <= ONE,
        0 <= reach,
        -reach <= second - first <= reach,
    ensures
        -(reach + 1) <= (amplitude * second) / (ONE as int) - (amplitude * first) / (ONE as int)
            <= reach + 1,
{
    let one = ONE as int;
    assert(amplitude * second - amplitude * first == amplitude * (second - first))
        by (nonlinear_arith);
    lemma_product_bounded(amplitude, second - first, one, reach);
    assert((reach + 1) * one == one * reach + one) by (nonlinear_arith);
    lemma_quotients_near(amplitude * first, amplitude * second, one, reach + 1);
}

/// The sum of the octaves moves by at most the step bound when a
/// coordinate moves by one.
proof fn lemma_octave_total_step(
    seed: u32,
    frequency: int,
    persistence: int,
    x: int,
    y: int,
    count: nat,
)
    requires
        0 <= frequency,
        0 <= persistence <= ONE,
    ensures
        ({
            let bound = step_bound(frequency, count);
            let here = octave_total(seed, frequency, persistence, x, y, count);
            &&& 0 <= bound
            &&& -bound <= octave_total(seed, frequency, persistence, x + 1, y, count) - here
                <= bound
            &&& -bound <= octave_total(seed, frequency, persistence, x, y + 1, count) - here
                <= bound
        }),
    decreases count,
{
    if count > 0 {
        let k = (count - 1) as nat;
        lemma_octave_total_step(seed, frequency, persistence, x, y, k);
        lemma_octave_step(seed, frequency, persistence, x, y, k);
        lemma_two_to_positive(k);
        let at = frequency * two_to(k);
        assert(at >= 0) by (nonlinear_arith)
            requires
                at == frequency * two_to(k),
                frequency >= 0,
                two_to(k) >= 1,
        ;
    }
}

/// A noise field is continuous: when a coordinate moves by one, the value
/// of the field moves by at most the step bound of its frequency and its
/// octaves.
pub proof fn lemma_field_continuous(
    seed: u32,
    octaves: nat,
    frequency: int,
    persistence: int,
    x: int,
    y: int,
)
    requires
        0 <= frequency,
        0 <= persistence <= ONE,
    ensures
        ({
            let bound = step_bound(frequency, octaves);
            let here = field_value(seed, octaves, frequency, persistence, x, y);
            &&& -bound <= field_value(seed, octaves, frequency, persistence, x + 1, y) - here
                <= bound
            &&& -bound <= field_value(seed, octaves, frequency, persistence, x, y + 1) - here
                <= bound
        }),
{
    lemma_octave_total_step(seed, frequency, persistence, x, y, octaves);
}

/// `value` held to the range from minus one to one.
fn clamp(value: i64) -> (held: i64)
    ensures
        held == clamp_unit(value as int),
        -ONE <= held <= ONE,
{
    if value < -ONE {
        -ONE
    } else if value > ONE {
        ONE
    } else {
        value
    }
}

/// The sum of `octaves` octaves of noise at `(x, y)`, held to the range
/// from minus one to one.
fn sum_octaves(seed: u32, octaves: u32, frequency: i64, persistence: i64, x: i64, y: i64) -> (value:
    i64)
    requires
        valid_settings(octaves, frequency, persistence),
    ensures
        value == field_value(
            seed,
            octaves as nat,
            frequency as int,
            persistence as int,
            x as int,
            y as int,
        ),
        -ONE <= value <= ONE,
{
    let mut total: i64 = 0;
    let mut amplitude: i64 = ONE;
    let mut at: i64 = frequency;
    let mut k: u32 = 0;
    while k < octaves
        invariant
            k <= octaves <= MAX_OCTAVES,
            0 <= persistence <= ONE,
            0 <= frequency <= MAX_FREQUENCY,
            amplitude == octave_amplitude(persistence as int, k as nat),
            0 <= amplitude <= ONE,
            at == frequency * two_to(k as nat),
            total == octave_total(
                seed,
                frequency as int,
                persistence as int,
                x as int,
                y as int,
                k as nat,
            ),
            -0x1_0000 * k <= total <= 0x1_0000 * k,
        decreases octaves - k,
    {
        proof {
            lemma_frequency_doubles(frequency as int, k as nat);
        }
        let (cx, xf) = scale_cell(x, at);
        let (cy, yf) = scale_cell(y, at);
        let term = amplify(amplitude, cell_noise(seed, cx, cy, xf, yf, fade(xf), fade(yf)));
        total = total + term;
        amplitude = decay(amplitude, persistence);
        at = 2 * at;
        k = k + 1;
    }
    clamp(total)
}

/// The sum of `octaves` octaves of noise at `(x, y, z)`, held to the range
/// from minus one to one.
fn sum_octaves3(
    seed: u32,
    octaves: u32,
    frequency: i64,
    persistence: i64,
    x: i64,
    y: i64,
    z: i64,
) -> (value: i64)
    requires
        valid_settings(octaves, frequency, persistence),
    ensures
        value == field_value3(
            seed,
            octaves as nat,
            frequency as int,
            persistence as int,
            x as int,
            y as int,
            z as int,
        ),
        -ONE <= value <= ONE,
{
    let mut total: i64 = 0;
    let mut amplitude: i64 = ONE;
    let mut at: i64 = frequency;
    let mut k: u32 = 0;
    while k < octaves
        invariant
            k <= octaves <= MAX_OCTAVES,
            0 <= persistence <= ONE,
            0 <= frequency <= MAX_FREQUENCY,
            amplitude == octave_amplitude(persistence as int, k as nat),
            0 <= amplitude <= ONE,
            at == frequency * two_to(k as nat),
            total == octave_total3(
                seed,
                frequency as int,
                persistence as int,
                x as int,
                y as int,
                z as int,
                k as nat,
            ),
            -0x1_0000 * k <= total <= 0x1_0000 * k,
        decreases octaves - k,
    {
        proof {
            lemma_frequency_doubles(frequency as int, k as nat);
        }
        let (cx, xf) = scale_cell(x, at);
        let (cy, yf) = scale_cell(y, at);
        let (cz, zf) = scale_cell(z, at);
        let term = amplify(amplitude, cell_noise3(seed, cx, cy, cz, xf, yf, zf));
        total = total + term;
        amplitude = decay(amplitude, persistence);
        at = 2 * at;
        k = k + 1;
    }
    clamp(total)
}

/// Frequency of the first octave of [`perlin_noise2d`] and
/// [`perlin_noise3d`]: five thousandths of a cell to the unit.
pub const BASE_FREQUENCY: i64 = 328;

/// Octaves of gradient noise at the fixed-point coordinates `(x, y)`: the
/// first at `BASE_FREQUENCY` and amplitude one, each further one at twice
/// the frequency and half the amplitude. A negative `num_octaves` counts as
/// none and one above `MAX_OCTAVES` as `MAX_OCTAVES`. The sum is held to
/// the range from minus one to one.
pub fn perlin_noise2d(seed: u32, x: i64, y: i64, num_octaves: i32) -> (value: i64)
    ensures
        value == field_value(
            seed,
            held_octaves(num_octaves),
            BASE_FREQUENCY as int,
            ONE / 2,
            x as int,
            y as int,
        ),
        -ONE <= value <= ONE,
{
    sum_octaves(seed, hold_octaves(num_octaves), BASE_FREQUENCY, ONE / 2, x, y)
}

/// Octaves of gradient noise at the fixed-point coordinates `(x, y, z)`,
/// with the settings of [`perlin_noise2d`].
pub fn perlin_noise3d(seed: u32, x: i64, y: i64, z: i64, num_octaves: i32) -> (value: i64)
    ensures
        value == field_value3(
            seed,
            held_octaves(num_octaves),
            BASE_FREQUENCY as int,
            ONE / 2,
            x as int,
            y as int,
            z as int,
        ),
        -ONE <= value <= ONE,
{
    sum_octaves3(seed, hold_octaves(num_octaves), BASE_FREQUENCY, ONE / 2, x, y, z)
}

/// A seeded noise field: sums `octaves` octaves of gradient noise, the
/// first at `frequency`, each further one at twice the frequency and
/// `persistence` times the amplitude of the one before.
#[derive(Clone, Copy, Debug)]
pub struct NoiseField {
    seed: u32,
    octaves: u32,
    frequency: i64,
    persistence: i64,
}

impl NoiseField {
    /// The seed from which the gradients are derived.
    pub closed spec fn seed(&self) -> u32 {
        self.seed
    }

    /// Number of octaves summed.
    pub closed spec fn octaves(&self) -> u32 {
        self.octaves
    }

    /// Frequency of the first octave, in cells to the unit.
    pub closed spec fn frequency(&self) -> i64 {
        self.frequency
    }

    /// Amplitude of each octave relative to the one before.
    pub closed spec fn persistence(&self) -> i64 {
        self.persistence
    }

    #[verifier::type_invariant]
    spec fn valid(&self) -> bool {
        valid_settings(self.octaves, self.frequency, self.persistence)
    }

    /// The value of the field at `(x, y)`.
    pub open spec fn sample_spec(&self, x: int, y: int) -> int {
        field_value(
            self.seed(),
            self.octaves() as nat,
            self.frequency() as int,
            self.persistence() as int,
            x,
            y,
        )
    }

    /// The value of the field at `(x, y, z)`.
    pub open spec fn sample3_spec(&self, x: int, y: int, z: int) -> int {
        field_value3(
            self.seed(),
            self.octaves() as nat,
            self.frequency() as int,
            self.persistence() as int,
            x,
            y,
            z,
        )
    }

    /// The field is continuous: when a coordinate moves by one, the value
    /// of the field moves by at most the step bound of its frequency and
    /// its octaves.
    pub proof fn lemma_sample_continuous(&self, x: int, y: int)
        requires
            valid_settings(self.octaves(), self.frequency(), self.persistence()),
        ensures
            ({
                let bound = step_bound(self.frequency() as int, self.octaves() as nat);
                &&& -bound <= self.sample_spec(x + 1, y) - self.sample_spec(x, y) <= bound
                &&& -bound <= self.sample_spec(x, y + 1) - self.sample_spec(x, y) <= bound
            }),
    {
        lemma_field_continuous(
            self.seed(),
            self.octaves() as nat,
            self.frequency() as int,
            self.persistence() as int,
            x,
            y,
        );
    }

    /// The field that shapes the terrain moves by at most six of the 65536
    /// parts of one when a coordinate moves by one.
    pub proof fn lemma_terrain_continuous(&self, x: int, y: int)
        requires
            self.is_terrain(),
        ensures
            -6 <= self.sample_spec(x + 1, y) - self.sample_spec(x, y) <= 6,
            -6 <= self.sample_spec(x, y + 1) - self.sample_spec(x, y) <= 6,
    {
        self.lemma_sample_continuous(x, y);
        let frequency = self.frequency() as int;
        assert(two_to(0) == 1);
        assert(frequency * two_to(0) == 6554) by (nonlinear_arith)
            requires
                frequency == 6554,
                two_to(0) == 1,
        ;
        assert(step_bound(frequency, 0) == 0);
        assert(step_bound(frequency, 1) == step_bound(frequency, 0) + 5 * ((frequency * two_to(0))
            / (ONE as int) + 1) + 1);
    }

    /// The field that shapes the terrain is its one octave of noise at full
    /// amplitude, and so stays within seven eighths of zero.
    pub proof fn lemma_terrain_within_limit(&self, x: int, y: int)
        requires
            self.is_terrain(),
        ensures
            self.sample_spec(x, y) == noise2d_spec(
                self.seed(),
                scaled(x, self.frequency() as int),
                scaled(y, self.frequency() as int),
            ),
            -NOISE_LIMIT <= self.sample_spec(x, y) <= NOISE_LIMIT,
    {
        let seed = self.seed();
        let frequency = self.frequency() as int;
        let persistence = self.persistence() as int;
        let at = frequency * two_to(0);
        assert(two_to(0) == 1);
        assert(at == frequency) by (nonlinear_arith)
            requires
                at == frequency * two_to(0),
                two_to(0) == 1,
        ;
        let noise = noise2d_spec(seed, scaled(x, at), scaled(y, at));
        lemma_noise_within_limit(seed, scaled(x, at), scaled(y, at));
        assert(octave_amplitude(persistence, 0) == ONE);
        assert((ONE * noise) / (ONE as int) == noise);
        assert(octave_value(seed, frequency, persistence, x, y, 0) == noise);
        assert(octave_total(seed, frequency, persistence, x, y, 0) == 0);
        assert(octave_total(seed, frequency, persistence, x, y, 1) == octave_total(
            seed,
            frequency,
            persistence,
            x,
            y,
            0,
        ) + octave_value(seed, frequency, persistence, x, y, 0));
    }

    /// Whether this is the field that shapes the terrain: seed 132, one
    /// octave, a tenth of a cell to the unit.
    pub open spec fn is_terrain(&self) -> bool {
        &&& self.seed() == 132
        &&& self.octaves() == 1
        &&& self.frequency() == 6554
        &&& self.persistence() == ONE / 2
    }

    /// The field that shapes the terrain.
    pub fn terrain() -> (field: NoiseField)
        ensures
            field.is_terrain(),
    {
        NoiseField { seed: 132, octaves: 1, frequency: 6554, persistence: ONE / 2 }
    }

    /// A noise field with the given settings, if they are valid.
    pub fn new(seed: u32, octaves: u32, frequency: i64, persistence: i64) -> (field: Option<
        NoiseField,
    >)
        ensures
            field.is_some() == valid_settings(octaves, frequency, persistence),
            field.is_some() ==> {
                &&& field.unwrap().seed() == seed
                &&& field.unwrap().octaves() == octaves
                &&& field.unwrap().frequency() == frequency
                &&& field.unwrap().persistence() == persistence
            },
    {
        if octaves <= MAX_OCTAVES && 0 <= frequency && frequency <= MAX_FREQUENCY && 0
            <= persistence && persistence <= ONE {
            Some(NoiseField { seed, octaves, frequency, persistence })
        } else {
            None
        }
    }

    /// The value of the field at the fixed-point coordinates `(x, y)`. It
    /// depends on nothing but the field and the coordinates.
    pub fn sample(&self, x: i64, y: i64) -> (value: i64)
        ensures
            value == self.sample_spec(x as int, y as int),
            -ONE <= value <= ONE,
    {
        proof {
            use_type_invariant(self);
        }
        sum_octaves(self.seed, self.octaves, self.frequency, self.persistence, x, y)
    }

    /// The value of the field at the fixed-point coordinates `(x, y, z)`.
    pub fn sample3(&self, x: i64, y: i64, z: i64) -> (value: i64)
        ensures
            value == self.sample3_spec(x as int, y as int, z as int),
            -ONE <= value <= ONE,
    {
        proof {
            use_type_invariant(self);
        }
        sum_octaves3(self.seed, self.octaves, self.frequency, self.persistence, x, y, z)
    }
}

} // verus!

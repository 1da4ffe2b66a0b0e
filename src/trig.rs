//! Angles and rotations in fixed point, by shift-and-add rotation steps.
//!
//! Angles are held in millionths of a degree.
use vstd::prelude::*;

use crate::fixed::{div_floor, lemma_div_shrinks, mod_floor, ONE};

verus! {

/// A full turn, in millionths of a degree.
pub const FULL_TURN: i64 = 360_000_000;

/// Half a turn, in millionths of a degree.
pub const HALF_TURN: i64 = 180_000_000;

/// A quarter turn, in millionths of a degree.
pub const QUARTER_TURN: i64 = 90_000_000;

/// The number of rotation steps.
pub const STEPS: u32 = 24;

/// The reciprocal of the length gain of all rotation steps together, in millionths.
pub const GAIN_INV: i64 = 607253;

/// The largest vector component, or length, that the rotations take.
pub const TRIG_LIMIT: i64 = 8 * ONE;

/// The largest component that a rotation can hand back.
pub const TRIG_OUT: i64 = 2 * TRIG_LIMIT * 0x100_0000;

/// The angle of step `i`: the arc tangent of `2^-i`, in millionths of a degree.
pub open spec fn step_angle(i: int) -> int {
    if i <= 0 { 45000000 }
    else if i == 1 { 26565051 }
    else if i == 2 { 14036243 }
    else if i == 3 { 7125016 }
    else if i == 4 { 3576334 }
    else if i == 5 { 1789911 }
    else if i == 6 { 895174 }
    else if i == 7 { 447614 }
    else if i == 8 { 223811 }
    else if i == 9 { 111906 }
    else if i == 10 { 55953 }
    else if i == 11 { 27976 }
    else if i == 12 { 13988 }
    else if i == 13 { 6994 }
    else if i == 14 { 3497 }
    else if i == 15 { 1749 }
    else if i == 16 { 874 }
    else if i == 17 { 437 }
    else if i == 18 { 219 }
    else if i == 19 { 109 }
    else if i == 20 { 55 }
    else if i == 21 { 27 }
    else if i == 22 { 14 }
    else { 7 }
}

fn step_angle_at(i: u32) -> (r: i64)
    ensures
        r == step_angle(i as int),
        0 < r <= 45000000,
{
    match i {
        0 => 45000000,
        1 => 26565051,
        2 => 14036243,
        3 => 7125016,
        4 => 3576334,
        5 => 1789911,
        6 => 895174,
        7 => 447614,
        8 => 223811,
        9 => 111906,
        10 => 55953,
        11 => 27976,
        12 => 13988,
        13 => 6994,
        14 => 3497,
        15 => 1749,
        16 => 874,
        17 => 437,
        18 => 219,
        19 => 109,
        20 => 55,
        21 => 27,
        22 => 14,
        _ => 7,
    }
}

/// `2^i`.
pub open spec fn two_pow(i: nat) -> int
    decreases i,
{
    if i == 0 {
        1
    } else {
        2 * two_pow((i - 1) as nat)
    }
}

/// The steps that turn `(x, y)` onto the positive x axis, from step `i` on;
/// the result is `z` plus the angle turned.
pub open spec fn vector_steps(x: int, y: int, z: int, i: nat) -> int
    decreases STEPS - i,
{
    if i >= STEPS {
        z
    } else {
        let p = two_pow(i);
        if y > 0 {
            vector_steps(x + y / p, y - x / p, z + step_angle(i as int), i + 1)
        } else {
            vector_steps(x - y / p, y + x / p, z - step_angle(i as int), i + 1)
        }
    }
}

/// The steps that turn `(x, y)` by the angle `z`, from step `i` on.
pub open spec fn rotate_steps(x: int, y: int, z: int, i: nat) -> (int, int)
    decreases STEPS - i,
{
    if i >= STEPS {
        (x, y)
    } else {
        let p = two_pow(i);
        if z >= 0 {
            rotate_steps(x - y / p, y + x / p, z - step_angle(i as int), i + 1)
        } else {
            rotate_steps(x + y / p, y - x / p, z + step_angle(i as int), i + 1)
        }
    }
}

/// The direction of the vector `(x, y)`, in `[0, FULL_TURN)`; zero for the zero vector.
pub open spec fn angle_of(x: int, y: int) -> int {
    if x == 0 && y == 0 {
        0
    } else {
        let z = if x < 0 {
            if y >= 0 {
                vector_steps(y, -x, QUARTER_TURN as int, 0)
            } else {
                vector_steps(-y, x, -QUARTER_TURN, 0)
            }
        } else {
            vector_steps(x, y, 0, 0)
        };
        z % (FULL_TURN as int)
    }
}

/// The vector of length `len` in direction `h`, for `h` in `[0, FULL_TURN)`.
pub open spec fn vector_at(len: int, h: int) -> (int, int) {
    let z = if h > HALF_TURN { h - FULL_TURN } else { h };
    let x0 = len * GAIN_INV / (ONE as int);
    if z > QUARTER_TURN {
        rotate_steps(0, x0, z - QUARTER_TURN, 0)
    } else if z < -QUARTER_TURN {
        rotate_steps(0, -x0, z + QUARTER_TURN, 0)
    } else {
        rotate_steps(x0, 0, z, 0)
    }
}

proof fn lemma_two_pow_bound(i: nat)
    ensures
        i <= 23 ==> two_pow(i) <= 0x80_0000,
        two_pow(i) >= 1,
    decreases 23 - i,
{
    if i < 23 {
        lemma_two_pow_bound(i + 1);
        assert(two_pow(i + 1) == 2 * two_pow(i));
    } else if i == 23 {
        reveal_with_fuel(two_pow, 24);
    } else {
        lemma_two_pow_pos(i);
    }
}

proof fn lemma_two_pow_pos(i: nat)
    ensures
        two_pow(i) >= 1,
    decreases i,
{
    if i > 0 {
        lemma_two_pow_pos((i - 1) as nat);
    }
}

pub open spec fn abs_int(x: int) -> int {
    if x < 0 { -x } else { x }
}

proof fn lemma_step_bounds(x: int, y: int, p: int, b: int)
    requires
        p >= 1,
        abs_int(x) + abs_int(y) <= b,
    ensures
        abs_int(x + y / p) + abs_int(y - x / p) <= 2 * b,
        abs_int(x - y / p) + abs_int(y + x / p) <= 2 * b,
{
    lemma_div_shrinks(x, p);
    lemma_div_shrinks(y, p);
}

/// The direction of `(x, y)` in millionths of a degree, in `[0, FULL_TURN)`.
pub fn angle_of_vector(x: i64, y: i64) -> (r: i64)
    requires
        -TRIG_LIMIT <= x <= TRIG_LIMIT,
        -TRIG_LIMIT <= y <= TRIG_LIMIT,
    ensures
        r == angle_of(x as int, y as int),
        0 <= r < FULL_TURN,
{
    if x == 0 && y == 0 {
        return 0;
    }
    let (mut vx, mut vy, mut z): (i128, i128, i128) = if x < 0 {
        if y >= 0 {
            (y as i128, -(x as i128), QUARTER_TURN as i128)
        } else {
            (-(y as i128), x as i128, -(QUARTER_TURN as i128))
        }
    } else {
        (x as i128, y as i128, 0)
    };
    let ghost total = vector_steps(vx as int, vy as int, z as int, 0);
    let mut i: u32 = 0;
    let mut p: i128 = 1;
    while i < STEPS
        invariant
            i <= STEPS,
            p == two_pow(i as nat),
            1 <= p <= 0x100_0000,
            i < STEPS ==> p <= 0x80_0000,
            abs_int(vx as int) + abs_int(vy as int) <= 2 * TRIG_LIMIT * p,
            -QUARTER_TURN - 45000000 * i <= z <= QUARTER_TURN + 45000000 * i,
            vector_steps(vx as int, vy as int, z as int, i as nat) == total,
        decreases STEPS - i,
    {
        let a = step_angle_at(i);
        proof {
            lemma_step_bounds(vx as int, vy as int, p as int, 2 * TRIG_LIMIT * p);
            assert(2 * TRIG_LIMIT * p <= 2 * TRIG_LIMIT * 0x80_0000) by (nonlinear_arith)
                requires
                    p <= 0x80_0000,
            ;
            assert(2 * (2 * TRIG_LIMIT * p) == 2 * TRIG_LIMIT * (p * 2)) by (nonlinear_arith);
            lemma_two_pow_bound((i + 1) as nat);
        }
        let dx = div_floor(vx, p);
        let dy = div_floor(vy, p);
        if vy > 0 {
            vx = vx + dy;
            vy = vy - dx;
            z = z + a as i128;
        } else {
            vx = vx - dy;
            vy = vy + dx;
            z = z - a as i128;
        }
        i = i + 1;
        p = p * 2;
    }
    let r = mod_floor(z, FULL_TURN as i128);
    r as i64
}

/// The components of the vector of length `len` in direction `h`.
pub fn vector_at_angle(len: i64, h: i64) -> (r: (i64, i64))
    requires
        0 <= len <= TRIG_LIMIT,
        0 <= h < FULL_TURN,
    ensures
        (r.0 as int, r.1 as int) == vector_at(len as int, h as int),
        -TRIG_OUT <= r.0 <= TRIG_OUT,
        -TRIG_OUT <= r.1 <= TRIG_OUT,
{
    let zz: i128 = if h > HALF_TURN { (h - FULL_TURN) as i128 } else { h as i128 };
    let x0: i128 = div_floor((len as i128) * (GAIN_INV as i128), ONE as i128);
    proof {
        lemma_div_shrinks((len as int) * (GAIN_INV as int), ONE as int);
        assert(x0 * ONE <= len * GAIN_INV) by {
            vstd::arithmetic::div_mod::lemma_fundamental_div_mod((len as int) * (GAIN_INV as int), ONE as int);
        }
    }
    let (mut vx, mut vy, mut z): (i128, i128, i128) = if zz > QUARTER_TURN as i128 {
        (0, x0, zz - QUARTER_TURN as i128)
    } else if zz < -(QUARTER_TURN as i128) {
        (0, -x0, zz + QUARTER_TURN as i128)
    } else {
        (x0, 0, zz)
    };
    let ghost total = rotate_steps(vx as int, vy as int, z as int, 0);
    let mut i: u32 = 0;
    let mut p: i128 = 1;
    while i < STEPS
        invariant
            i <= STEPS,
            p == two_pow(i as nat),
            1 <= p <= 0x100_0000,
            i < STEPS ==> p <= 0x80_0000,
            abs_int(vx as int) + abs_int(vy as int) <= 2 * TRIG_LIMIT * p,
            -HALF_TURN - 45000000 * i <= z <= HALF_TURN + 45000000 * i,
            rotate_steps(vx as int, vy as int, z as int, i as nat) == total,
        decreases STEPS - i,
    {
        let a = step_angle_at(i);
        proof {
            lemma_step_bounds(vx as int, vy as int, p as int, 2 * TRIG_LIMIT * p);
            assert(2 * TRIG_LIMIT * p <= 2 * TRIG_LIMIT * 0x80_0000) by (nonlinear_arith)
                requires
                    p <= 0x80_0000,
            ;
            assert(2 * (2 * TRIG_LIMIT * p) == 2 * TRIG_LIMIT * (p * 2)) by (nonlinear_arith);
            lemma_two_pow_bound((i + 1) as nat);
        }
        let dx = div_floor(vx, p);
        let dy = div_floor(vy, p);
        if z >= 0 {
            vx = vx - dy;
            vy = vy + dx;
            z = z - a as i128;
        } else {
            vx = vx + dy;
            vy = vy - dx;
            z = z + a as i128;
        }
        i = i + 1;
        p = p * 2;
    }
    (vx as i64, vy as i64)
}

} // verus!

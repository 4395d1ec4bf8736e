//! Three-component vectors, points, colors and rays over fixed-point scalars.
use vstd::prelude::*;

verus! {

use crate::fixed::{
    SCALE, COORD_MAX, T_LIMIT, MUL_IN_MAX, DIV_IN_MAX, tdiv, fxmul, fxdiv, fxsqrt, isqrt,
    lemma_isqrt_bounds, lemma_mul_bound, lemma_tdiv_bound, lemma_tdiv_scale_bound, tdiv_i128,
    mul_fx, div_fx, sqrt_fx,
};
use vstd::arithmetic::div_mod::{lemma_fundamental_div_mod, lemma_div_pos_is_pos};

/// Largest operand magnitude accepted by `Vec3::dot` and `Vec3::cross`.
pub const DOT_IN_MAX: i128 = 1152921504606846976;

/// Largest operand magnitude accepted by `Vec3::length` and `Vec3::unit`.
pub const LEN_IN_MAX: i128 = 36028797018963968;

/// Largest operand magnitude accepted by `Vec3::add` and `Vec3::sub`.
pub const ADD_IN_MAX: i128 = 1329227995784915872903807060280344576;

/// Largest magnitude of a component of a normalized vector.
pub const UNIT_MAX: i128 = 3072;

/// The mathematical model of a vector: three unbounded integers, each a
/// fixed-point scalar.
pub struct V3 {
    pub x: int,
    pub y: int,
    pub z: int,
}

/// A vector of three fixed-point scalars; doubles as a point and as a color.
#[derive(Clone, Copy, Debug, PartialEq, Eq, Structural)]
pub struct Vec3 {
    pub x: i128,
    pub y: i128,
    pub z: i128,
}

/// A point in space.
pub type Point = Vec3;

/// A color: each component is a channel intensity, `SCALE` standing for 1.
pub type Color = Vec3;

impl View for Vec3 {
    type V = V3;

    open spec fn view(&self) -> V3 {
        V3 { x: self.x as int, y: self.y as int, z: self.z as int }
    }
}

/// Whether every component of `v` has magnitude at most `m`.
pub open spec fn bounded3(v: V3, m: int) -> bool {
    &&& -m <= v.x <= m
    &&& -m <= v.y <= m
    &&& -m <= v.z <= m
}

pub open spec fn v3_zero() -> V3 {
    V3 { x: 0, y: 0, z: 0 }
}

pub open spec fn v3_add(u: V3, v: V3) -> V3 {
    V3 { x: u.x + v.x, y: u.y + v.y, z: u.z + v.z }
}

pub open spec fn v3_sub(u: V3, v: V3) -> V3 {
    V3 { x: u.x - v.x, y: u.y - v.y, z: u.z - v.z }
}

/// The negated vector.
pub open spec fn v3_neg(v: V3) -> V3 {
    V3 { x: -v.x, y: -v.y, z: -v.z }
}

/// Component-wise fixed-point product, as colors are attenuated.
pub open spec fn v3_mul(u: V3, v: V3) -> V3 {
    V3 { x: fxmul(u.x, v.x), y: fxmul(u.y, v.y), z: fxmul(u.z, v.z) }
}

/// The vector scaled by the fixed-point scalar `s`.
pub open spec fn v3_scale(v: V3, s: int) -> V3 {
    V3 { x: fxmul(v.x, s), y: fxmul(v.y, s), z: fxmul(v.z, s) }
}

/// The vector divided by the fixed-point scalar `s`.
pub open spec fn v3_div(v: V3, s: int) -> V3 {
    V3 { x: fxdiv(v.x, s), y: fxdiv(v.y, s), z: fxdiv(v.z, s) }
}

/// Fixed-point dot product.
pub open spec fn dot3(u: V3, v: V3) -> int {
    tdiv(u.x * v.x + u.y * v.y + u.z * v.z, SCALE as int)
}

/// Fixed-point cross product.
pub open spec fn cross3(u: V3, v: V3) -> V3 {
    V3 {
        x: tdiv(u.y * v.z - u.z * v.y, SCALE as int),
        y: tdiv(u.z * v.x - u.x * v.z, SCALE as int),
        z: tdiv(u.x * v.y - u.y * v.x, SCALE as int),
    }
}

/// Squared length, a fixed-point scalar.
pub open spec fn ls3(v: V3) -> int {
    dot3(v, v)
}

/// Length, a fixed-point scalar.
pub open spec fn len3(v: V3) -> int {
    fxsqrt(ls3(v))
}

/// The normalized vector. A vector too short to normalize (squared length
/// rounding to zero) is returned unchanged, so that the operation is total.
pub open spec fn unit3(v: V3) -> V3 {
    if ls3(v) < 1 {
        v
    } else {
        let len = len3(v);
        V3 { x: tdiv(v.x * (SCALE as int), len), y: tdiv(v.y * (SCALE as int), len), z: tdiv(v.z * (SCALE as int), len) }
    }
}

/// Gamma-2 encoding of a color: the square root of each channel.
pub open spec fn gamma2(v: V3) -> V3 {
    V3 { x: fxsqrt(v.x), y: fxsqrt(v.y), z: fxsqrt(v.z) }
}

/// The color with 8-bit channels `r`, `g`, `b` mapped to `[0, SCALE]`.
pub open spec fn rgb3(r: u8, g: u8, b: u8) -> V3 {
    V3 {
        x: tdiv(r as int * (SCALE as int), 255),
        y: tdiv(g as int * (SCALE as int), 255),
        z: tdiv(b as int * (SCALE as int), 255),
    }
}

impl Vec3 {
    pub fn new(x: i128, y: i128, z: i128) -> (r: Vec3)
        ensures
            r@ == (V3 { x: x as int, y: y as int, z: z as int }),
    {
        Vec3 { x, y, z }
    }

    /// The origin: the all-zero vector.
    pub fn origin() -> (r: Vec3)
        ensures
            r@ == v3_zero(),
    {
        Vec3 { x: 0, y: 0, z: 0 }
    }

    pub fn add(self, rhs: Vec3) -> (r: Vec3)
        requires
            bounded3(self@, ADD_IN_MAX as int),
            bounded3(rhs@, ADD_IN_MAX as int),
        ensures
            r@ == v3_add(self@, rhs@),
    {
        Vec3 { x: self.x + rhs.x, y: self.y + rhs.y, z: self.z + rhs.z }
    }

    /// The negated vector.
    pub fn neg(self) -> (r: Vec3)
        requires
            bounded3(self@, ADD_IN_MAX as int),
        ensures
            r@ == v3_neg(self@),
    {
        Vec3 { x: -self.x, y: -self.y, z: -self.z }
    }

    pub fn sub(self, rhs: Vec3) -> (r: Vec3)
        requires
            bounded3(self@, ADD_IN_MAX as int),
            bounded3(rhs@, ADD_IN_MAX as int),
        ensures
            r@ == v3_sub(self@, rhs@),
    {
        Vec3 { x: self.x - rhs.x, y: self.y - rhs.y, z: self.z - rhs.z }
    }

    /// Component-wise product, as colors are attenuated.
    pub fn mul(self, rhs: Vec3) -> (r: Vec3)
        requires
            bounded3(self@, MUL_IN_MAX as int),
            bounded3(rhs@, MUL_IN_MAX as int),
        ensures
            r@ == v3_mul(self@, rhs@),
    {
        Vec3 { x: mul_fx(self.x, rhs.x), y: mul_fx(self.y, rhs.y), z: mul_fx(self.z, rhs.z) }
    }

    /// The vector scaled by the fixed-point scalar `s`.
    pub fn scale(self, s: i128) -> (r: Vec3)
        requires
            bounded3(self@, MUL_IN_MAX as int),
            -MUL_IN_MAX <= s <= MUL_IN_MAX,
        ensures
            r@ == v3_scale(self@, s as int),
    {
        Vec3 { x: mul_fx(self.x, s), y: mul_fx(self.y, s), z: mul_fx(self.z, s) }
    }

    /// The vector divided by the fixed-point scalar `s`.
    pub fn div(self, s: i128) -> (r: Vec3)
        requires
            s != 0,
            bounded3(self@, DIV_IN_MAX as int),
        ensures
            r@ == v3_div(self@, s as int),
    {
        Vec3 { x: div_fx(self.x, s), y: div_fx(self.y, s), z: div_fx(self.z, s) }
    }

    /// Fixed-point dot product.
    pub fn dot(u: &Vec3, v: &Vec3) -> (r: i128)
        requires
            bounded3(u@, DOT_IN_MAX as int),
            bounded3(v@, DOT_IN_MAX as int),
        ensures
            r == dot3(u@, v@),
    {
        proof {
            lemma_mul_bound(u@.x, v@.x, DOT_IN_MAX as int, DOT_IN_MAX as int);
            lemma_mul_bound(u@.y, v@.y, DOT_IN_MAX as int, DOT_IN_MAX as int);
            lemma_mul_bound(u@.z, v@.z, DOT_IN_MAX as int, DOT_IN_MAX as int);
        }
        let s = u.x * v.x + u.y * v.y + u.z * v.z;
        tdiv_i128(s, SCALE)
    }

    /// Fixed-point cross product.
    pub fn cross(u: &Vec3, v: &Vec3) -> (r: Vec3)
        requires
            bounded3(u@, DOT_IN_MAX as int),
            bounded3(v@, DOT_IN_MAX as int),
        ensures
            r@ == cross3(u@, v@),
    {
        proof {
            lemma_mul_bound(u@.y, v@.z, DOT_IN_MAX as int, DOT_IN_MAX as int);
            lemma_mul_bound(u@.z, v@.y, DOT_IN_MAX as int, DOT_IN_MAX as int);
            lemma_mul_bound(u@.z, v@.x, DOT_IN_MAX as int, DOT_IN_MAX as int);
            lemma_mul_bound(u@.x, v@.z, DOT_IN_MAX as int, DOT_IN_MAX as int);
            lemma_mul_bound(u@.x, v@.y, DOT_IN_MAX as int, DOT_IN_MAX as int);
            lemma_mul_bound(u@.y, v@.x, DOT_IN_MAX as int, DOT_IN_MAX as int);
        }
        Vec3 {
            x: tdiv_i128(u.y * v.z - u.z * v.y, SCALE),
            y: tdiv_i128(u.z * v.x - u.x * v.z, SCALE),
            z: tdiv_i128(u.x * v.y - u.y * v.x, SCALE),
        }
    }

    /// Squared length.
    pub fn length_squared(&self) -> (r: i128)
        requires
            bounded3(self@, DOT_IN_MAX as int),
        ensures
            r == ls3(self@),
    {
        Self::dot(self, self)
    }

    /// Length.
    pub fn length(&self) -> (r: i128)
        requires
            bounded3(self@, LEN_IN_MAX as int),
        ensures
            r == len3(self@),
            0 <= r,
    {
        proof {
            lemma_ls3_bounds(self@, LEN_IN_MAX as int);
            assert(3 * (LEN_IN_MAX as int) * (LEN_IN_MAX as int) <= DIV_IN_MAX as int);
        }
        let ls = self.length_squared();
        sqrt_fx(ls)
    }

    /// The normalized vector; a vector of squared length rounding to zero is
    /// returned unchanged.
    pub fn unit(self) -> (r: Vec3)
        requires
            bounded3(self@, LEN_IN_MAX as int),
        ensures
            r@ == unit3(self@),
            bounded3(r@, UNIT_MAX as int),
    {
        proof {
            lemma_ls3_bounds(self@, LEN_IN_MAX as int);
            assert(3 * (LEN_IN_MAX as int) * (LEN_IN_MAX as int) <= DIV_IN_MAX as int);
        }
        let ls = self.length_squared();
        if ls < 1 {
            proof {
                lemma_ls3_small(self@);
            }
            return self;
        }
        let len = sqrt_fx(ls);
        proof {
            lemma_unit3_bounded(self@, LEN_IN_MAX as int);
            lemma_mul_bound(self@.x, SCALE as int, LEN_IN_MAX as int, SCALE as int);
            lemma_mul_bound(self@.y, SCALE as int, LEN_IN_MAX as int, SCALE as int);
            lemma_mul_bound(self@.z, SCALE as int, LEN_IN_MAX as int, SCALE as int);
        }
        Vec3 {
            x: tdiv_i128(self.x * SCALE, len),
            y: tdiv_i128(self.y * SCALE, len),
            z: tdiv_i128(self.z * SCALE, len),
        }
    }

    /// Gamma-2 encoding of a color: the square root of each channel.
    pub fn gamma_correct(self) -> (r: Vec3)
        requires
            0 <= self@.x <= DIV_IN_MAX as int,
            0 <= self@.y <= DIV_IN_MAX as int,
            0 <= self@.z <= DIV_IN_MAX as int,
        ensures
            r@ == gamma2(self@),
    {
        Vec3 { x: sqrt_fx(self.x), y: sqrt_fx(self.y), z: sqrt_fx(self.z) }
    }

    /// The color with the given 8-bit channels, each mapped to `[0, SCALE]`.
    pub fn rgb(r: u8, g: u8, b: u8) -> (c: Vec3)
        ensures
            c@ == rgb3(r, g, b),
            bounded3(c@, SCALE as int),
            0 <= c@.x && 0 <= c@.y && 0 <= c@.z,
    {
        proof {
            lemma_tdiv_scale_bound(r as int * (SCALE as int), 255, 4096int);
            lemma_tdiv_scale_bound(g as int * (SCALE as int), 255, 4096int);
            lemma_tdiv_scale_bound(b as int * (SCALE as int), 255, 4096int);
            if r > 0 {
                lemma_div_pos_is_pos(r as int * (SCALE as int), 255);
            }
            if g > 0 {
                lemma_div_pos_is_pos(g as int * (SCALE as int), 255);
            }
            if b > 0 {
                lemma_div_pos_is_pos(b as int * (SCALE as int), 255);
            }
        }
        Vec3 {
            x: tdiv_i128(r as i128 * SCALE, 255),
            y: tdiv_i128(g as i128 * SCALE, 255),
            z: tdiv_i128(b as i128 * SCALE, 255),
        }
    }
}

/// The squared length of a vector with components bounded by `m` is
/// nonnegative and at most `3 * m * m`.
pub proof fn lemma_ls3_bounds(v: V3, m: int)
    requires
        0 <= m,
        bounded3(v, m),
    ensures
        0 <= ls3(v) <= 3 * m * m,
{
    assert(0 <= v.x * v.x <= m * m && 0 <= v.y * v.y <= m * m && 0 <= v.z * v.z <= m * m)
        by (nonlinear_arith)
        requires
            -m <= v.x <= m,
            -m <= v.y <= m,
            -m <= v.z <= m,
    ;
    let q = v.x * v.x + v.y * v.y + v.z * v.z;
    assert(0 <= 3 * m * m && q <= (3 * m * m) * (SCALE as int)) by (nonlinear_arith)
        requires
            0 <= m,
            0 <= v.x * v.x <= m * m,
            0 <= v.y * v.y <= m * m,
            0 <= v.z * v.z <= m * m,
            q == v.x * v.x + v.y * v.y + v.z * v.z,
    ;
    if q == 0 {
    } else {
        lemma_div_pos_is_pos(q, SCALE as int);
        lemma_tdiv_scale_bound(q, SCALE as int, 3 * m * m);
    }
}

/// The squared length of any vector is nonnegative.
pub proof fn lemma_ls3_nonneg(v: V3)
    ensures
        0 <= ls3(v),
{
    assert(0 <= v.x * v.x && 0 <= v.y * v.y && 0 <= v.z * v.z) by (nonlinear_arith);
    let q = v.x * v.x + v.y * v.y + v.z * v.z;
    if q > 0 {
        lemma_div_pos_is_pos(q, SCALE as int);
    }
}

/// A dot product of vectors bounded by `mu` and `mv` is bounded by
/// `3 * mu * mv`.
pub proof fn lemma_dot3_bound(u: V3, v: V3, mu: int, mv: int)
    requires
        0 <= mu,
        0 <= mv,
        bounded3(u, mu),
        bounded3(v, mv),
    ensures
        -(3 * mu * mv) <= dot3(u, v) <= 3 * mu * mv,
{
    let q = u.x * v.x + u.y * v.y + u.z * v.z;
    assert(-(3 * mu * mv) <= q <= 3 * mu * mv && 0 <= 3 * mu * mv) by (nonlinear_arith)
        requires
            0 <= mu,
            0 <= mv,
            -mu <= u.x <= mu,
            -mu <= u.y <= mu,
            -mu <= u.z <= mu,
            -mv <= v.x <= mv,
            -mv <= v.y <= mv,
            -mv <= v.z <= mv,
            q == u.x * v.x + u.y * v.y + u.z * v.z,
    ;
    lemma_tdiv_bound(q, SCALE as int, 3 * mu * mv);
}

/// A cross product of vectors bounded by `mu` and `mv` has components
/// bounded by any `m` with `2 * mu * mv <= m * SCALE`.
pub proof fn lemma_cross3_bound(u: V3, v: V3, mu: int, mv: int, m: int)
    requires
        0 <= mu,
        0 <= mv,
        0 <= m,
        bounded3(u, mu),
        bounded3(v, mv),
        2 * mu * mv <= m * (SCALE as int),
    ensures
        bounded3(cross3(u, v), m),
{
    assert(-(2 * mu * mv) <= u.y * v.z - u.z * v.y <= 2 * mu * mv && -(2 * mu * mv) <= u.z * v.x
        - u.x * v.z <= 2 * mu * mv && -(2 * mu * mv) <= u.x * v.y - u.y * v.x <= 2 * mu * mv && 0
        <= 2 * mu * mv) by (nonlinear_arith)
        requires
            0 <= mu,
            0 <= mv,
            -mu <= u.x <= mu,
            -mu <= u.y <= mu,
            -mu <= u.z <= mu,
            -mv <= v.x <= mv,
            -mv <= v.y <= mv,
            -mv <= v.z <= mv,
    ;
    lemma_tdiv_scale_bound(u.y * v.z - u.z * v.y, SCALE as int, m);
    lemma_tdiv_scale_bound(u.z * v.x - u.x * v.z, SCALE as int, m);
    lemma_tdiv_scale_bound(u.x * v.y - u.y * v.x, SCALE as int, m);
}

/// A vector whose squared length rounds to zero has tiny components.
pub proof fn lemma_ls3_small(v: V3)
    requires
        ls3(v) < 1,
    ensures
        bounded3(v, 31),
{
    assert(0 <= v.x * v.x && 0 <= v.y * v.y && 0 <= v.z * v.z) by (nonlinear_arith);
    let q = v.x * v.x + v.y * v.y + v.z * v.z;
    lemma_ls3_nonneg(v);
    assert(q / (SCALE as int) == 0);
    lemma_fundamental_div_mod(q, SCALE as int);
    assert(q < 1024);
    assert(-31 <= v.x <= 31 && -31 <= v.y <= 31 && -31 <= v.z <= 31) by (nonlinear_arith)
        requires
            0 <= v.x * v.x,
            0 <= v.y * v.y,
            0 <= v.z * v.z,
            v.x * v.x + v.y * v.y + v.z * v.z < 1024,
    ;
}

/// A normalized vector has components of magnitude at most `UNIT_MAX`,
/// provided the input was long enough to normalize.
pub proof fn lemma_unit3_bounded(v: V3, m: int)
    requires
        0 <= m <= LEN_IN_MAX as int,
        bounded3(v, m),
        1 <= ls3(v),
    ensures
        bounded3(unit3(v), 2080),
        32 <= len3(v),
{
    let s = SCALE as int;
    let q = v.x * v.x + v.y * v.y + v.z * v.z;
    assert(0 <= v.x * v.x && 0 <= v.y * v.y && 0 <= v.z * v.z) by (nonlinear_arith);
    let ls = ls3(v);
    assert(ls == q / s);
    let len = isqrt(ls * s);
    lemma_isqrt_bounds(ls * s);
    assert(1024 <= ls * s) by (nonlinear_arith)
        requires
            1 <= ls,
            s == 1024,
    ;
    assert(32 <= len) by (nonlinear_arith)
        requires
            0 <= len,
            len * len <= ls * s,
            1024 <= ls * s,
            ls * s < (len + 1) * (len + 1),
    ;
    lemma_fundamental_div_mod(q, s);
    assert(q < (ls + 1) * s) by (nonlinear_arith)
        requires
            q == s * (q / s) + q % s,
            ls == q / s,
            0 <= q % s < s,
            s == 1024,
    ;
    assert(q * s < (ls * s + s) * s) by (nonlinear_arith)
        requires
            q < ls * s + s,
            s == 1024,
    ;
    lemma_unit3_comp(v.x, q, ls, len);
    lemma_unit3_comp(v.y, q, ls, len);
    lemma_unit3_comp(v.z, q, ls, len);
}

/// One component of a normalized vector is bounded by `2080`.
proof fn lemma_unit3_comp(x: int, q: int, ls: int, len: int)
    requires
        x * x <= q,
        q < ls * 1024 + 1024,
        32 <= len,
        len * len <= ls * 1024,
        ls * 1024 < (len + 1) * (len + 1),
    ensures
        -2080 <= tdiv(x * 1024, len) <= 2080,
{
    assert(x * x < (len + 1) * (len + 1) + 1024);
    assert(-(len + 33) <= x <= len + 33) by (nonlinear_arith)
        requires
            x * x < (len + 1) * (len + 1) + 1024,
            32 <= len,
    ;
    assert(-(2080 * len) <= x * 1024 <= 2080 * len) by (nonlinear_arith)
        requires
            -(len + 33) <= x <= len + 33,
            32 <= len,
    ;
    lemma_tdiv_scale_bound(x * 1024, len, 2080);
}

/// A ray: all points `origin + t * direction` for parameters `t >= 0`.
#[derive(Clone, Copy, Debug)]
pub struct Ray {
    pub origin: Point,
    pub direction: Vec3,
}

/// The mathematical model of a ray.
pub struct RayV {
    pub origin: V3,
    pub direction: V3,
}

impl View for Ray {
    type V = RayV;

    open spec fn view(&self) -> RayV {
        RayV { origin: self.origin@, direction: self.direction@ }
    }
}

/// The point a ray reaches at parameter `t` (a fixed-point scalar).
pub open spec fn ray_at(r: RayV, t: int) -> V3 {
    v3_add(r.origin, v3_scale(r.direction, t))
}

impl Ray {
    pub fn new(origin: Point, direction: Vec3) -> (r: Ray)
        ensures
            r@.origin == origin@,
            r@.direction == direction@,
    {
        Ray { origin, direction }
    }

    /// The point the ray reaches at parameter `t`.
    pub fn at(&self, t: i128) -> (r: Point)
        requires
            bounded3(self@.origin, COORD_MAX as int),
            bounded3(self@.direction, COORD_MAX as int),
            -T_LIMIT <= t <= T_LIMIT,
        ensures
            r@ == ray_at(self@, t as int),
    {
        proof {
            lemma_mul_bound(self@.direction.x, t as int, COORD_MAX as int, T_LIMIT as int);
            lemma_mul_bound(self@.direction.y, t as int, COORD_MAX as int, T_LIMIT as int);
            lemma_mul_bound(self@.direction.z, t as int, COORD_MAX as int, T_LIMIT as int);
            lemma_tdiv_bound(self@.direction.x * t, SCALE as int, COORD_MAX as int * T_LIMIT as int);
            lemma_tdiv_bound(self@.direction.y * t, SCALE as int, COORD_MAX as int * T_LIMIT as int);
            lemma_tdiv_bound(self@.direction.z * t, SCALE as int, COORD_MAX as int * T_LIMIT as int);
        }
        self.origin.add(self.direction.scale(t))
    }
}

} // verus!

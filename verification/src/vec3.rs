//! Three-component vectors, points, rays and colors over fixed-point scalars.
//!
//! The mathematical model of a vector is `V3`, a triple of unbounded integers
//! counting quanta of `1/FP_ONE`; every executable operation states its result
//! exactly in terms of that model.

use vstd::prelude::*;

use crate::fixed::{div_floor_i128, floor_div, isqrt_u128, FP_ONE};

verus! {

/// One of the three coordinate axes.
#[derive(Clone, Copy, Debug, PartialEq, Eq, Structural)]
pub enum Dimm {
    X,
    Y,
    Z,
}

impl Dimm {
    /// The conventional index of the axis.
    pub fn dimm_num(self) -> (r: usize)
        ensures
            r == match self {
                Dimm::X => 0int,
                Dimm::Y => 1int,
                Dimm::Z => 2int,
            },
            r < 3,
    {
        match self {
            Dimm::X => 0,
            Dimm::Y => 1,
            Dimm::Z => 2,
        }
    }
}

/// Mathematical model of a vector: one unbounded integer per component.
pub struct V3 {
    pub x: int,
    pub y: int,
    pub z: int,
}

/// The zero vector.
pub open spec fn sv_zero() -> V3 {
    V3 { x: 0, y: 0, z: 0 }
}

/// Componentwise sum.
pub open spec fn sv_add(a: V3, b: V3) -> V3 {
    V3 { x: a.x + b.x, y: a.y + b.y, z: a.z + b.z }
}

/// Componentwise difference.
pub open spec fn sv_sub(a: V3, b: V3) -> V3 {
    V3 { x: a.x - b.x, y: a.y - b.y, z: a.z - b.z }
}

/// Scaling by a fixed-point factor, each product rescaled by `FP_ONE`.
pub open spec fn sv_scale(a: V3, s: int) -> V3 {
    V3 {
        x: floor_div(a.x * s, FP_ONE as int),
        y: floor_div(a.y * s, FP_ONE as int),
        z: floor_div(a.z * s, FP_ONE as int),
    }
}

/// Componentwise fixed-point product (used for color attenuation).
pub open spec fn sv_mul(a: V3, b: V3) -> V3 {
    V3 {
        x: floor_div(a.x * b.x, FP_ONE as int),
        y: floor_div(a.y * b.y, FP_ONE as int),
        z: floor_div(a.z * b.z, FP_ONE as int),
    }
}

/// Fixed-point dot product: the wide product sum rescaled once.
pub open spec fn sv_dot(a: V3, b: V3) -> int {
    floor_div(a.x * b.x + a.y * b.y + a.z * b.z, FP_ONE as int)
}

/// Fixed-point cross product.
pub open spec fn sv_cross(a: V3, b: V3) -> V3 {
    V3 {
        x: floor_div(a.y * b.z - a.z * b.y, FP_ONE as int),
        y: floor_div(a.z * b.x - a.x * b.z, FP_ONE as int),
        z: floor_div(a.x * b.y - a.y * b.x, FP_ONE as int),
    }
}

/// The wide squared length (sum of raw component products, scale `FP_ONE^2`).
pub open spec fn sv_norm2_wide(a: V3) -> int {
    a.x * a.x + a.y * a.y + a.z * a.z
}

/// `r` is the floor of the square root of `n`.
pub open spec fn is_sqrt(n: int, r: int) -> bool {
    0 <= r && r * r <= n && n < (r + 1) * (r + 1)
}

/// The floor of the square root, as a mathematical function.
pub open spec fn sqrt_of(n: int) -> int {
    choose|r: int| is_sqrt(n, r)
}

/// The fixed-point length of a vector: `sqrt` of the wide squared norm, which
/// is already at scale `FP_ONE`.
pub open spec fn sv_length(a: V3) -> int {
    sqrt_of(sv_norm2_wide(a))
}

/// The unit vector: each component rescaled by the length.
pub open spec fn sv_unit(a: V3) -> V3 {
    V3 {
        x: floor_div(a.x * (FP_ONE as int), sv_length(a)),
        y: floor_div(a.y * (FP_ONE as int), sv_length(a)),
        z: floor_div(a.z * (FP_ONE as int), sv_length(a)),
    }
}

/// Mirror reflection of `v` about `n`: `v - n * (2 * dot(v, n))`.
pub open spec fn sv_reflect(v: V3, n: V3) -> V3 {
    sv_sub(v, sv_scale(n, 2 * sv_dot(v, n)))
}

/// Componentwise negation.
pub open spec fn sv_neg(a: V3) -> V3 {
    V3 { x: -a.x, y: -a.y, z: -a.z }
}

/// A color repeated `n` times under exact addition.
pub open spec fn sv_nscale(n: int, c: V3) -> V3 {
    V3 { x: n * c.x, y: n * c.y, z: n * c.z }
}

/// All components within `b` quanta of zero.
pub open spec fn sv_bounded(a: V3, b: int) -> bool {
    &&& -b <= a.x <= b
    &&& -b <= a.y <= b
    &&& -b <= a.z <= b
}

/// The square-root witness is unique, so `sqrt_of` agrees with any witness.
pub proof fn lemma_sqrt_unique(n: int, r: int)
    requires
        is_sqrt(n, r),
    ensures
        sqrt_of(n) == r,
{
    let w = choose|w: int| is_sqrt(n, w);
    assert(is_sqrt(n, w));
    assert(w == r) by (nonlinear_arith)
        requires
            is_sqrt(n, w),
            is_sqrt(n, r),
    ;
}

/// A product of values bounded by the given literals fits the range that
/// `scale` and `mul` accept.
pub proof fn lemma_scale_fits(c: int, s: int, kc: int, ks: int)
    requires
        0 <= kc <= 0x100_0000_0000,
        0 <= ks <= 0x100_0000_0000,
        -kc <= c <= kc,
        -ks <= s <= ks,
        kc * ks <= 0x1000_0000_0000_0000,
    ensures
        -((VEC_LIMIT as int) * FP_ONE) <= c * s <= (VEC_LIMIT as int) * FP_ONE,
{
    assert(-((VEC_LIMIT as int) * FP_ONE) <= c * s <= (VEC_LIMIT as int) * FP_ONE)
        by (nonlinear_arith)
        requires
            -kc <= c <= kc,
            -ks <= s <= ks,
            0 <= kc,
            0 <= ks,
            kc * ks <= 0x1000_0000_0000_0000,
            VEC_LIMIT == 0x1000_0000_0000,
            FP_ONE == 65536,
    ;
}

/// The rescaled product of values bounded by the given literals is bounded
/// by `m` whenever `kc * ks <= m * FP_ONE`.
pub proof fn lemma_scale_result(c: int, s: int, kc: int, ks: int, m: int)
    requires
        0 <= kc <= 0x100_0000_0000,
        0 <= ks <= 0x100_0000_0000,
        -kc <= c <= kc,
        -ks <= s <= ks,
        m >= 0,
        kc * ks <= m * (FP_ONE as int),
    ensures
        -m <= floor_div(c * s, FP_ONE as int) <= m,
{
    mul_bound(c, s, kc, ks);
    crate::fixed::lemma_floor_div_shrink(c * s, FP_ONE as int, m);
}

/// Scaling by exactly one (or minus one) is exact.
pub proof fn lemma_scale_one(v: V3)
    ensures
        sv_scale(v, FP_ONE as int) == v,
        sv_scale(v, -(FP_ONE as int)) == sv_neg(v),
        sv_scale(sv_zero(), FP_ONE as int) == sv_zero(),
{
    let f = FP_ONE as int;
    vstd::arithmetic::div_mod::lemma_div_multiples_vanish(v.x, f);
    vstd::arithmetic::div_mod::lemma_div_multiples_vanish(v.y, f);
    vstd::arithmetic::div_mod::lemma_div_multiples_vanish(v.z, f);
    vstd::arithmetic::div_mod::lemma_div_multiples_vanish(-v.x, f);
    vstd::arithmetic::div_mod::lemma_div_multiples_vanish(-v.y, f);
    vstd::arithmetic::div_mod::lemma_div_multiples_vanish(-v.z, f);
    vstd::arithmetic::div_mod::lemma_div_multiples_vanish(0, f);
    assert(v.x * f == f * v.x && v.y * f == f * v.y && v.z * f == f * v.z);
    assert(v.x * -f == f * -v.x && v.y * -f == f * -v.y && v.z * -f == f * -v.z)
        by (nonlinear_arith);
}

/// The floor square root of an exact square.
pub proof fn lemma_sqrt_square(k: int)
    requires
        k >= 0,
    ensures
        sqrt_of(k * k) == k,
{
    assert(is_sqrt(k * k, k)) by (nonlinear_arith)
        requires
            k >= 0,
    ;
    lemma_sqrt_unique(k * k, k);
}

/// A vector of three fixed-point components.
#[derive(Clone, Copy, Debug, PartialEq, Eq, Structural)]
pub struct Vec3 {
    pub x: i64,
    pub y: i64,
    pub z: i64,
}

impl View for Vec3 {
    type V = V3;

    open spec fn view(&self) -> V3 {
        V3 { x: self.x as int, y: self.y as int, z: self.z as int }
    }
}

/// Bound on vector components accepted by the componentwise operations.
pub const VEC_LIMIT: i64 = 0x1000_0000_0000;

/// Bound on vector components accepted by products (dot, cross, length).
pub const PROD_LIMIT: i64 = 0x4000_0000;

/// Bound on the coordinates of scene geometry; hit points on such geometry
/// stay within `PROD_LIMIT` and can seed further rays.
pub const GEO_LIMIT: i64 = 0x1000_0000;

impl Vec3 {
    /// Builds a vector from its components.
    pub fn new(x: i64, y: i64, z: i64) -> (r: Vec3)
        ensures
            r@ == (V3 { x: x as int, y: y as int, z: z as int }),
    {
        Vec3 { x, y, z }
    }

    /// The zero vector.
    pub fn zero() -> (r: Vec3)
        ensures
            r@ == sv_zero(),
    {
        Vec3 { x: 0, y: 0, z: 0 }
    }

    pub fn x(&self) -> (r: i64)
        ensures
            r == self@.x,
    {
        self.x
    }

    pub fn y(&self) -> (r: i64)
        ensures
            r == self@.y,
    {
        self.y
    }

    pub fn z(&self) -> (r: i64)
        ensures
            r == self@.z,
    {
        self.z
    }

    /// The component on the given axis.
    pub fn get(&self, d: Dimm) -> (r: i64)
        ensures
            r == sv_axis(self@, d),
    {
        match d {
            Dimm::X => self.x,
            Dimm::Y => self.y,
            Dimm::Z => self.z,
        }
    }

    /// Componentwise sum.
    pub fn add(&self, rhs: &Vec3) -> (r: Vec3)
        requires
            sv_bounded(self@, 0x2000_0000_0000_0000),
            sv_bounded(rhs@, 0x2000_0000_0000_0000),
        ensures
            r@ == sv_add(self@, rhs@),
    {
        Vec3 { x: self.x + rhs.x, y: self.y + rhs.y, z: self.z + rhs.z }
    }

    /// Componentwise difference.
    pub fn sub(&self, rhs: &Vec3) -> (r: Vec3)
        requires
            sv_bounded(self@, 0x2000_0000_0000_0000),
            sv_bounded(rhs@, 0x2000_0000_0000_0000),
        ensures
            r@ == sv_sub(self@, rhs@),
    {
        Vec3 { x: self.x - rhs.x, y: self.y - rhs.y, z: self.z - rhs.z }
    }

    /// Scales by a fixed-point factor.
    pub fn scale(&self, s: i64) -> (r: Vec3)
        requires
            sv_bounded(self@, VEC_LIMIT as int),
            -(VEC_LIMIT as int) * FP_ONE <= self@.x * s <= (VEC_LIMIT as int) * FP_ONE,
            -(VEC_LIMIT as int) * FP_ONE <= self@.y * s <= (VEC_LIMIT as int) * FP_ONE,
            -(VEC_LIMIT as int) * FP_ONE <= self@.z * s <= (VEC_LIMIT as int) * FP_ONE,
        ensures
            r@ == sv_scale(self@, s as int),
            sv_bounded(r@, VEC_LIMIT as int),
    {
        let x = scale_component(self.x, s);
        let y = scale_component(self.y, s);
        let z = scale_component(self.z, s);
        Vec3 { x, y, z }
    }

    /// Componentwise fixed-point product.
    pub fn mul(&self, rhs: &Vec3) -> (r: Vec3)
        requires
            -(VEC_LIMIT as int) * FP_ONE <= self@.x * rhs@.x <= (VEC_LIMIT as int) * FP_ONE,
            -(VEC_LIMIT as int) * FP_ONE <= self@.y * rhs@.y <= (VEC_LIMIT as int) * FP_ONE,
            -(VEC_LIMIT as int) * FP_ONE <= self@.z * rhs@.z <= (VEC_LIMIT as int) * FP_ONE,
        ensures
            r@ == sv_mul(self@, rhs@),
            sv_bounded(r@, VEC_LIMIT as int),
    {
        let x = scale_component(self.x, rhs.x);
        let y = scale_component(self.y, rhs.y);
        let z = scale_component(self.z, rhs.z);
        Vec3 { x, y, z }
    }

    /// Fixed-point dot product.
    pub fn dot(&self, rhs: &Vec3) -> (r: i64)
        requires
            sv_bounded(self@, PROD_LIMIT as int),
            sv_bounded(rhs@, PROD_LIMIT as int),
        ensures
            r == sv_dot(self@, rhs@),
    {
        proof {
            mul_bound(self@.x, rhs@.x, PROD_LIMIT as int, PROD_LIMIT as int);
            mul_bound(self@.y, rhs@.y, PROD_LIMIT as int, PROD_LIMIT as int);
            mul_bound(self@.z, rhs@.z, PROD_LIMIT as int, PROD_LIMIT as int);
        }
        let wide: i128 = (self.x as i128) * (rhs.x as i128) + (self.y as i128) * (rhs.y as i128)
            + (self.z as i128) * (rhs.z as i128);
        let r = div_floor_i128(wide, FP_ONE as i128);
        proof {
            crate::fixed::lemma_floor_div_bound(wide as int, FP_ONE as int);
        }
        r as i64
    }

    /// Fixed-point cross product.
    pub fn cross(&self, rhs: &Vec3) -> (r: Vec3)
        requires
            sv_bounded(self@, PROD_LIMIT as int),
            sv_bounded(rhs@, PROD_LIMIT as int),
        ensures
            r@ == sv_cross(self@, rhs@),
    {
        proof {
            mul_bound(self@.y, rhs@.z, PROD_LIMIT as int, PROD_LIMIT as int);
            mul_bound(self@.z, rhs@.y, PROD_LIMIT as int, PROD_LIMIT as int);
            mul_bound(self@.z, rhs@.x, PROD_LIMIT as int, PROD_LIMIT as int);
            mul_bound(self@.x, rhs@.z, PROD_LIMIT as int, PROD_LIMIT as int);
            mul_bound(self@.x, rhs@.y, PROD_LIMIT as int, PROD_LIMIT as int);
            mul_bound(self@.y, rhs@.x, PROD_LIMIT as int, PROD_LIMIT as int);
        }
        let cx: i128 = (self.y as i128) * (rhs.z as i128) - (self.z as i128) * (rhs.y as i128);
        let cy: i128 = (self.z as i128) * (rhs.x as i128) - (self.x as i128) * (rhs.z as i128);
        let cz: i128 = (self.x as i128) * (rhs.y as i128) - (self.y as i128) * (rhs.x as i128);
        let x = div_floor_i128(cx, FP_ONE as i128);
        let y = div_floor_i128(cy, FP_ONE as i128);
        let z = div_floor_i128(cz, FP_ONE as i128);
        proof {
            crate::fixed::lemma_floor_div_bound(cx as int, FP_ONE as int);
            crate::fixed::lemma_floor_div_bound(cy as int, FP_ONE as int);
            crate::fixed::lemma_floor_div_bound(cz as int, FP_ONE as int);
        }
        Vec3 { x: x as i64, y: y as i64, z: z as i64 }
    }

    /// The wide squared norm (scale `FP_ONE` squared).
    pub fn norm2_wide(&self) -> (r: i128)
        requires
            sv_bounded(self@, PROD_LIMIT as int),
        ensures
            r == sv_norm2_wide(self@),
            r >= 0,
            r <= 3 * (PROD_LIMIT as int) * (PROD_LIMIT as int),
    {
        proof {
            mul_bound(self@.x, self@.x, PROD_LIMIT as int, PROD_LIMIT as int);
            mul_bound(self@.y, self@.y, PROD_LIMIT as int, PROD_LIMIT as int);
            mul_bound(self@.z, self@.z, PROD_LIMIT as int, PROD_LIMIT as int);
            square_nonneg(self@.x);
            square_nonneg(self@.y);
            square_nonneg(self@.z);
        }
        (self.x as i128) * (self.x as i128) + (self.y as i128) * (self.y as i128)
            + (self.z as i128) * (self.z as i128)
    }

    /// The fixed-point squared length (scale `FP_ONE`).
    pub fn length_squared(&self) -> (r: i64)
        requires
            sv_bounded(self@, PROD_LIMIT as int),
        ensures
            r == floor_div(sv_norm2_wide(self@), FP_ONE as int),
    {
        let wide = self.norm2_wide();
        let r = div_floor_i128(wide, FP_ONE as i128);
        proof {
            crate::fixed::lemma_floor_div_bound(wide as int, FP_ONE as int);
        }
        r as i64
    }

    /// The fixed-point length.
    pub fn length(&self) -> (r: i64)
        requires
            sv_bounded(self@, PROD_LIMIT as int),
        ensures
            r == sv_length(self@),
            r >= 0,
            self@ != sv_zero() ==> r >= 1,
    {
        let wide = self.norm2_wide();
        let root = isqrt_u128(wide as u128);
        proof {
            assert(root * root <= wide as int);
            assert((wide as int) < (root + 1) * (root + 1));
            assert(root <= 2 * PROD_LIMIT as int) by (nonlinear_arith)
                requires
                    root * root <= wide as int,
                    wide as int <= 3 * (PROD_LIMIT as int) * (PROD_LIMIT as int),
                    root >= 0,
            ;
            lemma_sqrt_unique(sv_norm2_wide(self@), root as int);
            if self@ != sv_zero() {
                assert(sv_norm2_wide(self@) >= 1) by (nonlinear_arith)
                    requires
                        !(self@.x == 0 && self@.y == 0 && self@.z == 0),
                ;
                assert(root >= 1) by (nonlinear_arith)
                    requires
                        (root as int + 1) * (root as int + 1) > 1,
                        root >= 0,
                ;
            }
        }
        root as i64
    }

    /// True exactly on the zero vector (the smallest representable magnitude
    /// is far above the near-zero guard of the reference algorithm).
    pub fn near_zero(&self) -> (r: bool)
        ensures
            r == (self@ == sv_zero()),
    {
        let r = self.x == 0 && self.y == 0 && self.z == 0;
        proof {
            if r {
                assert(self@ == sv_zero());
            }
        }
        r
    }

    /// The unit vector in the same direction.
    pub fn unit(&self) -> (r: Vec3)
        requires
            sv_bounded(self@, PROD_LIMIT as int),
            self@ != sv_zero(),
        ensures
            r@ == sv_unit(self@),
            sv_bounded(r@, FP_ONE as int),
            r@ != sv_zero(),
    {
        let len = self.length();
        proof {
            let n = sv_norm2_wide(self@);
            square_nonneg(self@.x);
            square_nonneg(self@.y);
            square_nonneg(self@.z);
            lemma_sqrt_exists(n);
            lemma_unit_component_bound(self@.x, n, len as int);
            lemma_unit_component_bound(self@.y, n, len as int);
            lemma_unit_component_bound(self@.z, n, len as int);
            lemma_unit_nonzero(self@, len as int);
        }
        let x = div_floor_i128((self.x as i128) * (FP_ONE as i128), len as i128);
        let y = div_floor_i128((self.y as i128) * (FP_ONE as i128), len as i128);
        let z = div_floor_i128((self.z as i128) * (FP_ONE as i128), len as i128);
        Vec3 { x: x as i64, y: y as i64, z: z as i64 }
    }

    /// The opposite vector.
    pub fn neg(&self) -> (r: Vec3)
        requires
            sv_bounded(self@, VEC_LIMIT as int),
        ensures
            r@ == sv_neg(self@),
            sv_bounded(r@, VEC_LIMIT as int),
    {
        Vec3 { x: -self.x, y: -self.y, z: -self.z }
    }

    /// Mirror reflection about a normal.
    pub fn reflect(&self, normal: &Vec3) -> (r: Vec3)
        requires
            sv_bounded(self@, PROD_LIMIT as int),
            sv_bounded(normal@, 4 * FP_ONE as int),
        ensures
            r@ == sv_reflect(self@, normal@),
            sv_bounded(self@, FP_ONE as int) && sv_bounded(normal@, 2 * FP_ONE as int)
                ==> sv_bounded(r@, 64 * FP_ONE as int),
    {
        let d = self.dot(normal);
        proof {
            lemma_dot_bound(self@, normal@, PROD_LIMIT as int, 4 * FP_ONE as int,
                0x4_0000_0000);
            mul_bound(normal@.x, 2 * d, 4 * FP_ONE as int, 0x8_0000_0000);
            mul_bound(normal@.y, 2 * d, 4 * FP_ONE as int, 0x8_0000_0000);
            mul_bound(normal@.z, 2 * d, 4 * FP_ONE as int, 0x8_0000_0000);
            if sv_bounded(self@, FP_ONE as int) && sv_bounded(normal@, 2 * FP_ONE as int) {
                lemma_dot_bound(self@, normal@, FP_ONE as int, 2 * FP_ONE as int,
                    6 * FP_ONE as int);
                mul_bound(normal@.x, 2 * d, 2 * FP_ONE as int, 12 * FP_ONE as int);
                mul_bound(normal@.y, 2 * d, 2 * FP_ONE as int, 12 * FP_ONE as int);
                mul_bound(normal@.z, 2 * d, 2 * FP_ONE as int, 12 * FP_ONE as int);
                crate::fixed::lemma_floor_div_shrink(normal@.x * (2 * d), FP_ONE as int,
                    24 * FP_ONE as int);
                crate::fixed::lemma_floor_div_shrink(normal@.y * (2 * d), FP_ONE as int,
                    24 * FP_ONE as int);
                crate::fixed::lemma_floor_div_shrink(normal@.z * (2 * d), FP_ONE as int,
                    24 * FP_ONE as int);
            }
        }
        let scaled = normal.scale(2 * d);
        self.sub(&scaled)
    }
}

/// The component of `v` on axis `d`.
pub open spec fn sv_axis(v: V3, d: Dimm) -> int {
    match d {
        Dimm::X => v.x,
        Dimm::Y => v.y,
        Dimm::Z => v.z,
    }
}

/// One fixed-point component product, exact per `sv_scale`.
fn scale_component(c: i64, s: i64) -> (r: i64)
    requires
        -(VEC_LIMIT as int) * FP_ONE <= c * s <= (VEC_LIMIT as int) * FP_ONE,
    ensures
        r == floor_div(c as int * s as int, FP_ONE as int),
        -(VEC_LIMIT as int) <= r <= VEC_LIMIT as int,
{
    let wide: i128 = (c as i128) * (s as i128);
    let r = div_floor_i128(wide, FP_ONE as i128);
    proof {
        crate::fixed::lemma_floor_div_shrink(wide as int, FP_ONE as int, VEC_LIMIT as int);
    }
    r as i64
}

/// Bound on a product of two bounded factors.
pub proof fn mul_bound(a: int, b: int, la: int, lb: int)
    requires
        -la <= a <= la,
        -lb <= b <= lb,
        la >= 0,
        lb >= 0,
    ensures
        -(la * lb) <= a * b <= la * lb,
{
    assert(-(la * lb) <= a * b <= la * lb) by (nonlinear_arith)
        requires
            -la <= a <= la,
            -lb <= b <= lb,
            la >= 0,
            lb >= 0,
    ;
}

/// Every nonnegative integer has a floor square root.
pub proof fn lemma_sqrt_exists(n: int)
    requires
        n >= 0,
    ensures
        is_sqrt(n, sqrt_of(n)),
{
    let r = sqrt_rec(n);
    lemma_sqrt_rec_is_sqrt(n);
    assert(is_sqrt(n, r));
    assert(is_sqrt(n, choose|w: int| is_sqrt(n, w)));
}

/// Recursive witness for the floor square root.
spec fn sqrt_rec(n: int) -> int
    decreases n,
{
    if n <= 0 {
        0
    } else {
        let p = sqrt_rec(n - 1);
        if (p + 1) * (p + 1) <= n {
            p + 1
        } else {
            p
        }
    }
}

proof fn lemma_sqrt_rec_is_sqrt(n: int)
    requires
        n >= 0,
    ensures
        is_sqrt(n, sqrt_rec(n)),
    decreases n,
{
    if n == 0 {
    } else {
        lemma_sqrt_rec_is_sqrt(n - 1);
        let p = sqrt_rec(n - 1);
        if (p + 1) * (p + 1) <= n {
            assert(is_sqrt(n, p + 1)) by (nonlinear_arith)
                requires
                    is_sqrt(n - 1, p),
                    (p + 1) * (p + 1) <= n,
            ;
        } else {
            assert(is_sqrt(n, p));
        }
    }
}

/// Squares are nonnegative.
pub proof fn square_nonneg(a: int)
    ensures
        a * a >= 0,
{
    assert(a * a >= 0) by (nonlinear_arith);
}

/// A component whose square is within the radicand keeps its rescaled
/// quotient within one unit.
proof fn lemma_unit_component_bound(c: int, n: int, len: int)
    requires
        is_sqrt(n, len),
        len >= 1,
        c * c <= n,
    ensures
        -(FP_ONE as int) <= floor_div(c * FP_ONE as int, len) <= FP_ONE as int,
        -(len * FP_ONE as int) <= c * FP_ONE as int <= len * FP_ONE as int,
{
    assert(-len <= c <= len) by (nonlinear_arith)
        requires
            c * c <= n,
            n < (len + 1) * (len + 1),
            len >= 0,
    ;
    assert(-(len * FP_ONE as int) <= c * FP_ONE as int <= len * FP_ONE as int)
        by (nonlinear_arith)
        requires
            -len <= c <= len,
            len >= 1,
    ;
    crate::fixed::lemma_floor_div_shrink(c * FP_ONE as int, len, FP_ONE as int);
}

/// The rescaled unit vector of a nonzero vector cannot quantize to zero:
/// were all three quotients zero, every component would be smaller than a
/// `1/FP_ONE` fraction of the length, and the squared length could not
/// reach itself.
proof fn lemma_unit_nonzero(v: V3, len: int)
    requires
        v != sv_zero(),
        is_sqrt(sv_norm2_wide(v), len),
        len >= 1,
    ensures
        sv_unit(v) != sv_zero(),
{
    lemma_sqrt_unique(sv_norm2_wide(v), len);
    let f = FP_ONE as int;
    let n = sv_norm2_wide(v);
    if sv_unit(v) == sv_zero() {
        lemma_zero_quotient_small(v.x, len);
        lemma_zero_quotient_small(v.y, len);
        lemma_zero_quotient_small(v.z, len);
        assert(n < len * len) by (nonlinear_arith)
            requires
                n == v.x * v.x + v.y * v.y + v.z * v.z,
                0 <= v.x * f < len && 0 <= v.y * f < len && 0 <= v.z * f < len,
                !(v.x == 0 && v.y == 0 && v.z == 0),
                len >= 1,
                f == 65536,
        ;
        assert(false);
    }
}

/// A zero floor quotient pins the scaled dividend under the divisor.
proof fn lemma_zero_quotient_small(c: int, len: int)
    requires
        len >= 1,
        floor_div(c * (FP_ONE as int), len) == 0,
    ensures
        0 <= c * (FP_ONE as int) < len,
{
    vstd::arithmetic::div_mod::lemma_fundamental_div_mod(c * (FP_ONE as int), len);
    vstd::arithmetic::div_mod::lemma_mod_bound(c * (FP_ONE as int), len);
}

/// Bound on a dot product of bounded vectors.
pub proof fn lemma_dot_bound(a: V3, b: V3, la: int, lb: int, m: int)
    requires
        sv_bounded(a, la),
        sv_bounded(b, lb),
        la >= 0,
        lb >= 0,
        m >= 0,
        m * (FP_ONE as int) >= 3 * (la * lb),
    ensures
        -m <= sv_dot(a, b) <= m,
{
    mul_bound(a.x, b.x, la, lb);
    mul_bound(a.y, b.y, la, lb);
    mul_bound(a.z, b.z, la, lb);
    let s = a.x * b.x + a.y * b.y + a.z * b.z;
    assert(-(3 * (la * lb)) <= s <= 3 * (la * lb));
    assert(-(m * (FP_ONE as int)) <= s <= m * (FP_ONE as int));
    crate::fixed::lemma_floor_div_shrink(s, FP_ONE as int, m);
}


/// A position in space.
#[derive(Clone, Copy, Debug, PartialEq, Eq, Structural)]
pub struct Point(pub Vec3);

impl View for Point {
    type V = V3;

    open spec fn view(&self) -> V3 {
        self.0@
    }
}

/// Mathematical model of a ray: an origin and an unnormalized direction.
pub struct R3 {
    pub orig: V3,
    pub dir: V3,
}

/// The position along a ray: `orig + dir * t`, rescaled by `FP_ONE`.
pub open spec fn sv_ray_at(r: R3, t: int) -> V3 {
    sv_add(r.orig, sv_scale(r.dir, t))
}

/// A ray: origin plus direction, not necessarily unit length.
#[derive(Clone, Copy, Debug, PartialEq, Eq, Structural)]
pub struct Ray {
    pub orig: Point,
    pub direction: Vec3,
}

impl View for Ray {
    type V = R3;

    open spec fn view(&self) -> R3 {
        R3 { orig: self.orig@, dir: self.direction@ }
    }
}

impl Ray {
    pub fn new(orig: Point, dir: Vec3) -> (r: Ray)
        ensures
            r@ == (R3 { orig: orig@, dir: dir@ }),
    {
        Ray { orig, direction: dir }
    }

    /// The position at parametric distance `t`.
    pub fn at(&self, t: i64) -> (r: Point)
        requires
            sv_bounded(self@.orig, VEC_LIMIT as int),
            sv_bounded(self@.dir, VEC_LIMIT as int),
            -(VEC_LIMIT as int) * FP_ONE <= self@.dir.x * t <= (VEC_LIMIT as int) * FP_ONE,
            -(VEC_LIMIT as int) * FP_ONE <= self@.dir.y * t <= (VEC_LIMIT as int) * FP_ONE,
            -(VEC_LIMIT as int) * FP_ONE <= self@.dir.z * t <= (VEC_LIMIT as int) * FP_ONE,
        ensures
            r@ == sv_ray_at(self@, t as int),
    {
        let offset = self.direction.scale(t);
        Point(self.orig.0.add(&offset))
    }
}

/// A linear-RGB radiance or reflectance value; unbounded, clamped only at
/// image-encoding time.
#[derive(Clone, Copy, Debug, PartialEq, Eq, Structural)]
pub struct Color(pub Vec3);

impl View for Color {
    type V = V3;

    open spec fn view(&self) -> V3 {
        self.0@
    }
}

impl Color {
    /// Black: the additive identity of accumulated light.
    pub fn black() -> (r: Color)
        ensures
            r@ == sv_zero(),
    {
        Color(Vec3::zero())
    }

    /// White: full reflectance on every channel.
    pub fn ones() -> (r: Color)
        ensures
            r@ == sv_ones(),
    {
        Color(Vec3::new(FP_ONE, FP_ONE, FP_ONE))
    }
}

/// The all-ones color (one scene unit per channel).
pub open spec fn sv_ones() -> V3 {
    V3 { x: FP_ONE as int, y: FP_ONE as int, z: FP_ONE as int }
}

} // verus!

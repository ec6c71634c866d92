//! Perlin gradient noise and the marble texture built on it, in exact
//! fixed point.
//!
//! Gradients and permutation tables are drawn once from the random source;
//! evaluation is a pure function of them, mirrored exactly by the spec
//! functions, so everything downstream of the draws is verified for every
//! table the generator could produce.

use vstd::prelude::*;

use crate::fixed::{div_floor_i128, floor_div, FP_ONE};
use crate::rng::RngSource;
use crate::texture::PI_FP;
use crate::vec3::{mul_bound, sv_bounded, sv_dot, Point, Vec3, V3};

verus! {

/// Entries of the permutation tables, and the number of gradients.
pub const PERLIN_POINT_COUNT: usize = 256;

/// A permutation table entry stays inside the gradient array.
pub open spec fn perm_ok(s: Seq<usize>) -> bool {
    s.len() == 256 && forall|i: int| 0 <= i < s.len() ==> (#[trigger] s[i]) < 256
}

/// Random gradients and three axis permutation tables.
#[derive(Debug)]
pub struct Perlin {
    pub ranvec: Vec<Vec3>,
    pub perm_x: Vec<usize>,
    pub perm_y: Vec<usize>,
    pub perm_z: Vec<usize>,
}

pub open spec fn perlin_wf(p: Perlin) -> bool {
    &&& p.ranvec@.len() == 256
    &&& forall|i: int| 0 <= i < 256 ==> sv_bounded((#[trigger] p.ranvec@[i])@, FP_ONE as int)
    &&& perm_ok(p.perm_x@)
    &&& perm_ok(p.perm_y@)
    &&& perm_ok(p.perm_z@)
}

/// The flat index of one corner of the interpolation kernel.
pub fn kidx(i: usize, j: usize, k: usize) -> (r: usize)
    requires
        i < 2 && j < 2 && k < 2,
    ensures
        r == i * 4 + j * 2 + k,
        r < 8,
{
    i * 4 + j * 2 + k
}

impl Perlin {
    /// Draws the gradients and shuffles the three permutation tables.
    pub fn new(rng: &mut RngSource) -> (p: Perlin)
        ensures
            perlin_wf(p),
    {
        let mut ranvec: Vec<Vec3> = Vec::new();
        let mut i: usize = 0;
        while i < PERLIN_POINT_COUNT
            invariant
                i <= 256,
                ranvec@.len() == i,
                forall|j: int| 0 <= j < i ==> sv_bounded((#[trigger] ranvec@[j])@,
                    FP_ONE as int),
            decreases 256 - i,
        {
            ranvec.push(Vec3::new(rng.gen_range_i64(-FP_ONE, FP_ONE),
                rng.gen_range_i64(-FP_ONE, FP_ONE), rng.gen_range_i64(-FP_ONE, FP_ONE)));
            i = i + 1;
        }
        Perlin {
            ranvec,
            perm_x: generate_perm(rng),
            perm_y: generate_perm(rng),
            perm_z: generate_perm(rng),
        }
    }

    /// The noise value at a position: trilinear smoothstep interpolation of
    /// the eight surrounding corner gradients, dotted with the offsets.
    pub fn noise(&self, p: &Point) -> (r: i64)
        requires
            perlin_wf(*self),
            sv_bounded(p@, 0x1_0000_0000_0000),
        ensures
            r == perlin_noise_at(*self, p@),
            -(0x4000_0000) <= r <= 0x4000_0000,
    {
        let (i, u) = lattice_cell(p.0.x);
        let (j, v) = lattice_cell(p.0.y);
        let (k, w) = lattice_cell(p.0.z);
        let uu = smooth(u);
        let vv = smooth(v);
        let ww = smooth(w);
        let c0 = self.corner(i, j, k, 0, 0, 0, u, v, w, uu, vv, ww);
        let c1 = self.corner(i, j, k, 0, 0, 1, u, v, w, uu, vv, ww);
        let c2 = self.corner(i, j, k, 0, 1, 0, u, v, w, uu, vv, ww);
        let c3 = self.corner(i, j, k, 0, 1, 1, u, v, w, uu, vv, ww);
        let c4 = self.corner(i, j, k, 1, 0, 0, u, v, w, uu, vv, ww);
        let c5 = self.corner(i, j, k, 1, 0, 1, u, v, w, uu, vv, ww);
        let c6 = self.corner(i, j, k, 1, 1, 0, u, v, w, uu, vv, ww);
        let c7 = self.corner(i, j, k, 1, 1, 1, u, v, w, uu, vv, ww);
        c0 + c1 + c2 + c3 + c4 + c5 + c6 + c7
    }

    /// One corner's smoothed, gradient-weighted contribution.
    fn corner(&self, i: usize, j: usize, k: usize, di: usize, dj: usize, dk: usize, u: i64,
        v: i64, w: i64, uu: i64, vv: i64, ww: i64) -> (r: i64)
        requires
            perlin_wf(*self),
            i < 256 && j < 256 && k < 256,
            di < 2 && dj < 2 && dk < 2,
            0 <= u < FP_ONE as int && 0 <= v < FP_ONE as int && 0 <= w < FP_ONE as int,
            0 <= uu <= 3 * FP_ONE as int && 0 <= vv <= 3 * FP_ONE as int && 0 <= ww
                <= 3 * FP_ONE as int,
        ensures
            r == spec_corner(*self, i as int, j as int, k as int, di as int, dj as int,
                dk as int, u as int, v as int, w as int, uu as int, vv as int, ww as int),
            -(0x800_0000) <= r <= 0x800_0000,
    {
        let px = self.perm_x[(i + di) % 256];
        let py = self.perm_y[(j + dj) % 256];
        let pz = self.perm_z[(k + dk) % 256];
        let idx = perm_mix(px, py, pz);
        let grad = self.ranvec[idx];
        let weight = Vec3::new(u - (di as i64) * FP_ONE, v - (dj as i64) * FP_ONE,
            w - (dk as i64) * FP_ONE);
        let d = grad.dot(&weight);
        proof {
            crate::vec3::lemma_dot_bound(grad@, weight@, 65536, 65536, 196608);
        }
        let fi = smooth_factor(di, uu);
        let fj = smooth_factor(dj, vv);
        let fk = smooth_factor(dk, ww);
        let t1 = fp_prod(fi, fj, 262144, 262144);
        let t2 = fp_prod(t1, fk, 1048576, 262144);
        fp_prod(t2, d, 4194304, 196608)
    }

    /// Layered noise: each octave doubles the frequency and halves the
    /// weight; the magnitude of the sum.
    pub fn turbulence(&self, p: &Point, depth: usize) -> (r: i64)
        requires
            perlin_wf(*self),
            sv_bounded(p@, 0x100_0000_0000),
            depth <= 8,
        ensures
            r == spec_turbulence(*self, p@, depth as nat),
            0 <= r <= 0x10_0000_0000,
    {
        let mut accum: i64 = 0;
        let mut tp: Vec3 = p.0;
        let mut weight: i64 = FP_ONE;
        let mut step: usize = 0;
        while step < depth
            invariant
                perlin_wf(*self),
                step <= depth <= 8,
                (accum as int, tp@, weight as int) == spec_turb_state(*self, p@,
                    step as nat),
                sv_bounded(tp@, octave_bound(step as int)),
                0 <= weight <= FP_ONE as int,
                -(0x2_0000_0000 * (step as int)) <= accum <= 0x2_0000_0000 * (step as int),
            decreases depth - step,
        {
            proof {
                assert(octave_bound(step as int) <= 0x1_0000_0000_0000);
                assert(step as int + 1 <= 8 ==> 2 * octave_bound(step as int)
                    <= octave_bound(step as int + 1));
            }
            let n = self.noise(&Point(tp));
            proof {
                mul_bound(weight as int, n as int, 65536, 0x4000_0000);
                crate::fixed::lemma_floor_div_shrink(weight as int * (n as int),
                    FP_ONE as int, 0x2_0000_0000);
                lemma_turb_bounds(step as int);
            }
            accum = accum + (div_floor_i128((weight as i128) * (n as i128),
                FP_ONE as i128) as i64);
            weight = ((weight as u64) / 2) as i64;
            tp = Vec3::new(tp.x * 2, tp.y * 2, tp.z * 2);
            step = step + 1;
        }
        if accum < 0 {
            -accum
        } else {
            accum
        }
    }
}

/// The coordinate bound after `n` frequency doublings.
pub open spec fn octave_bound(n: int) -> int {
    if n <= 0 {
        0x100_0000_0000
    } else if n == 1 {
        0x200_0000_0000
    } else if n == 2 {
        0x400_0000_0000
    } else if n == 3 {
        0x800_0000_0000
    } else if n == 4 {
        0x1000_0000_0000
    } else if n == 5 {
        0x2000_0000_0000
    } else if n == 6 {
        0x4000_0000_0000
    } else if n == 7 {
        0x8000_0000_0000
    } else {
        0x1_0000_0000_0000
    }
}

proof fn lemma_turb_bounds(step: int)
    requires
        0 <= step <= 8,
    ensures
        0x2_0000_0000 * step + 0x2_0000_0000 <= 0x1_0000_0000_0000,
        0x2_0000_0000 * step + 0x2_0000_0000 == 0x2_0000_0000 * (step + 1),
{
    assert(0x2_0000_0000 * step + 0x2_0000_0000 <= 0x1_0000_0000_0000
        && 0x2_0000_0000 * step + 0x2_0000_0000 == 0x2_0000_0000 * (step + 1))
        by (nonlinear_arith)
        requires
            0 <= step <= 8,
    ;
}

/// The turbulence accumulator, octave position and weight after `n` steps.
pub open spec fn spec_turb_state(pl: Perlin, p: V3, n: nat) -> (int, V3, int)
    decreases n,
{
    if n == 0 {
        (0, p, FP_ONE as int)
    } else {
        let prev = spec_turb_state(pl, p, (n - 1) as nat);
        let accum = prev.0 + floor_div(prev.2 * perlin_noise_at_v(pl, prev.1),
            FP_ONE as int);
        let tp = V3 { x: prev.1.x * 2, y: prev.1.y * 2, z: prev.1.z * 2 };
        let weight = floor_div(prev.2, 2);
        (accum, tp, weight)
    }
}

/// The magnitude of the layered sum.
pub open spec fn spec_turbulence(pl: Perlin, p: V3, depth: nat) -> int {
    let accum = spec_turb_state(pl, p, depth).0;
    if accum < 0 {
        -accum
    } else {
        accum
    }
}

/// Mixes three permutation entries into one gradient index.
fn perm_mix(px: usize, py: usize, pz: usize) -> (r: usize)
    requires
        px < 256 && py < 256 && pz < 256,
    ensures
        r == spec_perm_mix(px as int, py as int, pz as int),
        r < 256,
{
    let a = px as u64;
    let b = py as u64;
    let c = pz as u64;
    let m = a ^ b ^ c;
    proof {
        assert(m < 256) by (bit_vector)
            requires
                a < 256 && b < 256 && c < 256,
                m == a ^ b ^ c,
        ;
    }
    m as usize
}

/// The gradient index of three permutation entries.
pub open spec fn spec_perm_mix(px: int, py: int, pz: int) -> int {
    ((px as u64) ^ (py as u64) ^ (pz as u64)) as int
}

/// The lattice cell of a coordinate: the cell index folded into the table,
/// and the fractional offset inside the cell.
fn lattice_cell(c: i64) -> (r: (usize, i64))
    requires
        -(0x1_0000_0000_0000) <= c <= 0x1_0000_0000_0000,
    ensures
        r.0 as int == spec_cell(c as int),
        r.1 as int == spec_frac(c as int),
        r.0 < 256,
        0 <= r.1 < FP_ONE as int,
{
    let cf = div_floor_i128(c as i128, FP_ONE as i128) as i64;
    proof {
        crate::fixed::lemma_floor_div_shrink(c as int, FP_ONE as int, 0x1_0000_0000_0000);
        vstd::arithmetic::div_mod::lemma_fundamental_div_mod(c as int, FP_ONE as int);
        vstd::arithmetic::div_mod::lemma_mod_bound(c as int, FP_ONE as int);
        lemma_fold_256(cf as int);
        crate::fixed::lemma_floor_div_shrink(cf as int, 256, 0x100_0000_0000);
        vstd::arithmetic::div_mod::lemma_fundamental_div_mod(cf as int, 256);
    }
    let frac = c - cf * FP_ONE;
    let q = div_floor_i128(cf as i128, 256);
    let cell = ((cf as i128) - q * 256) as usize;
    (cell, frac)
}

/// The folded cell index of a coordinate.
pub open spec fn spec_cell(c: int) -> int {
    floor_div(c, FP_ONE as int) % 256
}

/// The fractional offset of a coordinate inside its cell.
pub open spec fn spec_frac(c: int) -> int {
    c - floor_div(c, FP_ONE as int) * (FP_ONE as int)
}

/// Folding through the truncating remainder agrees with the Euclidean one.
proof fn lemma_fold_256(q: int)
    ensures
        0 <= q % 256 < 256,
{
    vstd::arithmetic::div_mod::lemma_mod_bound(q, 256);
}

/// The smoothstep weight `t * t * (3 - 2 t)`, at fixed scale.
fn smooth(t: i64) -> (r: i64)
    requires
        0 <= t < FP_ONE as int,
    ensures
        r == spec_smooth(t as int),
        0 <= r <= 3 * FP_ONE as int,
{
    proof {
        mul_bound(t as int, t as int, 65536, 65536);
        crate::fixed::lemma_floor_div_shrink(t as int * t as int, FP_ONE as int, 65536);
        vstd::arithmetic::div_mod::lemma_div_pos_is_pos(t as int * t as int, FP_ONE as int);
    }
    let t2 = div_floor_i128((t as i128) * (t as i128), FP_ONE as i128) as i64;
    proof {
        mul_bound(t2 as int, 3 * FP_ONE as int - 2 * t as int, 65536, 196608);
        crate::fixed::lemma_floor_div_shrink(t2 as int * (3 * FP_ONE as int - 2 * t as int),
            FP_ONE as int, 196608);
        vstd::arithmetic::div_mod::lemma_div_pos_is_pos(t2 as int * (3 * FP_ONE as int
            - 2 * t as int), FP_ONE as int);
        assert(t2 as int * (3 * FP_ONE as int - 2 * t as int) >= 0) by (nonlinear_arith)
            requires
                t2 >= 0,
                0 <= t && (t as int) < FP_ONE as int,
                FP_ONE == 65536,
        ;
    }
    div_floor_i128((t2 as i128) * (3 * (FP_ONE as i128) - 2 * (t as i128)),
        FP_ONE as i128) as i64
}

pub open spec fn spec_smooth(t: int) -> int {
    let t2 = floor_div(t * t, FP_ONE as int);
    floor_div(t2 * (3 * FP_ONE as int - 2 * t), FP_ONE as int)
}

/// The corner's factor on one axis: the smooth weight toward the far
/// corner, its complement toward the near one.
fn smooth_factor(d: usize, s: i64) -> (r: i64)
    requires
        d < 2,
        0 <= s <= 3 * FP_ONE as int,
    ensures
        r == spec_smooth_factor(d as int, s as int),
        -(2 * FP_ONE as int) <= r <= 3 * FP_ONE as int,
        -(0x4_0000) <= r <= 0x4_0000,
{
    if d == 1 {
        s
    } else {
        FP_ONE - s
    }
}

pub open spec fn spec_smooth_factor(d: int, s: int) -> int {
    if d == 1 {
        s
    } else {
        FP_ONE as int - s
    }
}

/// One fixed-point product under explicit literal bounds.
fn fp_prod(a: i64, b: i64, la: i64, lb: i64) -> (r: i64)
    requires
        0 <= la <= 0x8000_0000 && 0 <= lb <= 0x8000_0000,
        -la <= a <= la,
        -lb <= b <= lb,
    ensures
        r == floor_div(a as int * b as int, FP_ONE as int),
        r * (FP_ONE as int) <= la as int * lb as int,
        r * (FP_ONE as int) > -(la as int * lb as int) - (FP_ONE as int),
{
    proof {
        mul_bound(a as int, b as int, la as int, lb as int);
        mul_bound(la as int, lb as int, 0x8000_0000, 0x8000_0000);
        crate::fixed::lemma_floor_div_shrink(a as int * b as int, FP_ONE as int,
            0x1_0000_0000_0000);
        lemma_fp_prod_bound(a as int, b as int, la as int, lb as int);
    }
    div_floor_i128((a as i128) * (b as i128), FP_ONE as i128) as i64
}

proof fn lemma_fp_prod_bound(a: int, b: int, la: int, lb: int)
    requires
        0 <= la && 0 <= lb,
        -la <= a <= la,
        -lb <= b <= lb,
    ensures
        floor_div(a * b, FP_ONE as int) * (FP_ONE as int) <= la * lb,
        floor_div(a * b, FP_ONE as int) * (FP_ONE as int) > -(la * lb) - (FP_ONE as int),
{
    mul_bound(a, b, la, lb);
    vstd::arithmetic::div_mod::lemma_fundamental_div_mod(a * b, FP_ONE as int);
    vstd::arithmetic::div_mod::lemma_mod_bound(a * b, FP_ONE as int);
    let q = floor_div(a * b, FP_ONE as int);
    assert(q * (FP_ONE as int) <= la * lb && q * (FP_ONE as int) > -(la * lb)
        - (FP_ONE as int)) by (nonlinear_arith)
        requires
            a * b == (FP_ONE as int) * q + (a * b) % (FP_ONE as int),
            0 <= (a * b) % (FP_ONE as int) < FP_ONE as int,
            -(la * lb) <= a * b <= la * lb,
            la * lb >= 0,
    ;
}

/// One corner's contribution, as a mathematical function.
pub open spec fn spec_corner(pl: Perlin, i: int, j: int, k: int, di: int, dj: int, dk: int,
    u: int, v: int, w: int, uu: int, vv: int, ww: int) -> int {
    let px = pl.perm_x@[(i + di) % 256] as int;
    let py = pl.perm_y@[(j + dj) % 256] as int;
    let pz = pl.perm_z@[(k + dk) % 256] as int;
    let grad = pl.ranvec@[spec_perm_mix(px, py, pz)]@;
    let weight = V3 { x: u - di * FP_ONE as int, y: v - dj * FP_ONE as int, z: w - dk
        * FP_ONE as int };
    let d = sv_dot(grad, weight);
    let t1 = floor_div(spec_smooth_factor(di, uu) * spec_smooth_factor(dj, vv),
        FP_ONE as int);
    let t2 = floor_div(t1 * spec_smooth_factor(dk, ww), FP_ONE as int);
    floor_div(t2 * d, FP_ONE as int)
}

/// The noise value at a position, as a mathematical function.
pub open spec fn perlin_noise_at_v(pl: Perlin, p: V3) -> int {
    let i = spec_cell(p.x);
    let j = spec_cell(p.y);
    let k = spec_cell(p.z);
    let u = spec_frac(p.x);
    let v = spec_frac(p.y);
    let w = spec_frac(p.z);
    let uu = spec_smooth(u);
    let vv = spec_smooth(v);
    let ww = spec_smooth(w);
    spec_corner(pl, i, j, k, 0, 0, 0, u, v, w, uu, vv, ww) + spec_corner(pl, i, j, k, 0, 0,
        1, u, v, w, uu, vv, ww) + spec_corner(pl, i, j, k, 0, 1, 0, u, v, w, uu, vv, ww)
        + spec_corner(pl, i, j, k, 0, 1, 1, u, v, w, uu, vv, ww) + spec_corner(pl, i, j, k,
        1, 0, 0, u, v, w, uu, vv, ww) + spec_corner(pl, i, j, k, 1, 0, 1, u, v, w, uu, vv,
        ww) + spec_corner(pl, i, j, k, 1, 1, 0, u, v, w, uu, vv, ww) + spec_corner(pl, i, j,
        k, 1, 1, 1, u, v, w, uu, vv, ww)
}

/// The noise value of a `Perlin` at a model position.
pub open spec fn perlin_noise_at(pl: Perlin, p: V3) -> int {
    perlin_noise_at_v(pl, p)
}

/// One freshly shuffled permutation table.
fn generate_perm(rng: &mut RngSource) -> (r: Vec<usize>)
    ensures
        perm_ok(r@),
{
    let mut p: Vec<usize> = Vec::new();
    let mut i: usize = 0;
    while i < PERLIN_POINT_COUNT
        invariant
            i <= 256,
            p@.len() == i,
            forall|j: int| 0 <= j < i ==> (#[trigger] p@[j]) < 256,
        decreases 256 - i,
    {
        p.push(i);
        i = i + 1;
    }
    let mut idx: usize = PERLIN_POINT_COUNT - 1;
    while idx >= 1
        invariant
            idx <= 255,
            p@.len() == 256,
            forall|j: int| 0 <= j < 256 ==> (#[trigger] p@[j]) < 256,
        decreases idx,
    {
        let target = rng.gen_range_i64(0, idx as i64) as usize;
        let a = p[idx];
        let b = p[target];
        p.set(idx, b);
        p.set(target, a);
        idx = idx - 1;
    }
    p
}


/// A fixed-point sine: the angle is folded into a half-turn and its parity,
/// then approximated by Bhaskara's rational formula.
pub open spec fn spec_sin(x: int) -> int {
    let q = floor_div(x, PI_FP as int);
    let t = x - q * (PI_FP as int);
    let a = t * ((PI_FP as int) - t);
    let num = 16 * a * (FP_ONE as int);
    let den = 5 * (PI_FP as int) * (PI_FP as int) - 4 * a;
    let magnitude = floor_div(num, den);
    if q - 2 * floor_div(q, 2) == 1 {
        -magnitude
    } else {
        magnitude
    }
}

/// Computes `spec_sin` on a fixed-point angle.
fn sin_fp(x: i64) -> (r: i64)
    requires
        -(0x1_0000_0000_0000) <= x <= 0x1_0000_0000_0000,
    ensures
        r == spec_sin(x as int),
        -(16 * FP_ONE as int) <= r <= 16 * FP_ONE as int,
{
    proof {
        crate::fixed::lemma_floor_div_shrink(x as int, PI_FP as int, 0x1_0000_0000_0000);
        vstd::arithmetic::div_mod::lemma_fundamental_div_mod(x as int, PI_FP as int);
        vstd::arithmetic::div_mod::lemma_mod_bound(x as int, PI_FP as int);
    }
    let q = div_floor_i128(x as i128, PI_FP as i128) as i64;
    let t = x - q * PI_FP;
    proof {
        assert(0 <= t < PI_FP as int);
        mul_bound(t as int, PI_FP as int - t as int, 205887, 205887);
    }
    let a: i128 = (t as i128) * ((PI_FP as i128) - (t as i128));
    let num: i128 = 16 * a * (FP_ONE as i128);
    let den: i128 = 5 * (PI_FP as i128) * (PI_FP as i128) - 4 * a;
    proof {
        assert(den >= 1);
        crate::fixed::lemma_floor_div_bound(num as int, den as int);
        lemma_bhaskara_bound(a as int);
    }
    let magnitude = div_floor_i128(num, den) as i64;
    proof {
        crate::fixed::lemma_floor_div_shrink(q as int, 2, 0x1_0000_0000_0000);
        vstd::arithmetic::div_mod::lemma_fundamental_div_mod(q as int, 2);
        vstd::arithmetic::div_mod::lemma_mod_bound(q as int, 2);
    }
    let qh = div_floor_i128(q as i128, 2) as i64;
    if q - 2 * qh == 1 {
        -magnitude
    } else {
        magnitude
    }
}

/// The Bhaskara quotient stays within sixteen units.
proof fn lemma_bhaskara_bound(a: int)
    requires
        0 <= a <= 205887 * 205887,
    ensures
        0 <= floor_div(16 * a * (FP_ONE as int), 5 * (PI_FP as int) * (PI_FP as int) - 4 * a)
            <= 16 * FP_ONE as int,
{
    let num = 16 * a * (FP_ONE as int);
    let den = 5 * (PI_FP as int) * (PI_FP as int) - 4 * a;
    assert(num >= 0 && den >= 1 && num <= (16 * FP_ONE as int) * den) by (nonlinear_arith)
        requires
            0 <= a <= 205887 * 205887,
            num == 16 * a * (FP_ONE as int),
            den == 5 * (PI_FP as int) * (PI_FP as int) - 4 * a,
            PI_FP == 205887,
            FP_ONE == 65536,
    ;
    vstd::arithmetic::div_mod::lemma_div_pos_is_pos(num, den);
    crate::fixed::lemma_floor_div_shrink(num, den, 16 * FP_ONE as int);
}

/// The marble texture: layered turbulence shifts the phase of a sine along
/// one axis.
#[derive(Debug)]
pub struct NoiseTexture {
    pub noise: Perlin,
    pub scale: i64,
}

pub open spec fn noise_tex_wf(t: NoiseTexture) -> bool {
    perlin_wf(t.noise) && 0 <= t.scale <= 0x4000_0000
}

/// The marble gray level at a position: half of one plus the sine of the
/// scaled height, phase-shifted by ten turbulence units, clamped into one.
pub open spec fn marble_gray(t: NoiseTexture, p: V3) -> int {
    let turb = spec_turbulence(t.noise, p, 7);
    let zs = floor_div(p.z * t.scale, (FP_ONE as int) * (FP_ONE as int));
    let sv = spec_sin(zs + 10 * turb);
    let g = floor_div(FP_ONE as int + sv, 2);
    if g < 0 {
        0
    } else if g > FP_ONE as int {
        FP_ONE as int
    } else {
        g
    }
}

/// The marble color: the gray level on every channel.
pub open spec fn marble_value(t: NoiseTexture, p: V3) -> V3 {
    V3 { x: marble_gray(t, p), y: marble_gray(t, p), z: marble_gray(t, p) }
}

impl NoiseTexture {
    /// A marble texture at the given spatial frequency, with freshly drawn
    /// noise tables.
    pub fn scale(rng: &mut RngSource, scale: i64) -> (t: NoiseTexture)
        requires
            0 <= scale <= 0x4000_0000,
        ensures
            noise_tex_wf(t),
            t.scale == scale,
    {
        NoiseTexture { noise: Perlin::new(rng), scale }
    }

    /// Samples the marble pattern.
    pub fn value(&self, p: &Point) -> (r: crate::vec3::Color)
        requires
            noise_tex_wf(*self),
            sv_bounded(p@, 0x100_0000_0000),
        ensures
            r@ == marble_value(*self, p@),
            sv_bounded(r@, FP_ONE as int),
    {
        let turb = self.noise.turbulence(p, 7);
        proof {
            mul_bound(p@.z, self.scale as int, 0x100_0000_0000, 0x4000_0000);
            crate::fixed::lemma_floor_div_shrink(p@.z * self.scale as int,
                (FP_ONE as int) * (FP_ONE as int), 0x1000_0000_0000);
            assert((FP_ONE as i128) * (FP_ONE as i128) == 0x1_0000_0000);
        }
        let zs = div_floor_i128((p.0.z as i128) * (self.scale as i128),
            (FP_ONE as i128) * (FP_ONE as i128)) as i64;
        let sv = sin_fp(zs + 10 * turb);
        let g0 = div_floor_i128((FP_ONE as i128) + (sv as i128), 2) as i64;
        proof {
            crate::fixed::lemma_floor_div_bound(FP_ONE as int + sv as int, 2);
        }
        let g = if g0 < 0 {
            0
        } else if g0 > FP_ONE {
            FP_ONE
        } else {
            g0
        };
        crate::vec3::Color(Vec3::new(g, g, g))
    }
}

} // verus!

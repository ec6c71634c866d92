//! Spheres and their exact ray intersection.
//!
//! The intersection solves the quadratic in wide integer arithmetic with a
//! floor square root; a root becomes a hit candidate only after an exact
//! check that its position lies strictly inside the sphere's padded bounding
//! box, which is what the tree traversal's pruning argument relies on.

use vstd::prelude::*;

use crate::aabb::{pos_strictly_in, sa_bounded, sa_wf, Aabb, A3, BOX_PAD};
use crate::fixed::{div_floor_i128, floor_div, isqrt_u128, FP_ONE};
use crate::hit::{best_of, h3_new, opt_hit_matches, HitRecord, H3};
use crate::vec3::{
    lemma_sqrt_unique, mul_bound, sqrt_of, sv_bounded, sv_ray_at, Point, Ray, R3, V3, Vec3,
    PROD_LIMIT,
};

verus! {

/// Smallest accepted radius magnitude, in quanta.
pub const MIN_RADIUS: i64 = 1024;

/// A sphere; a negative radius is legal and turns the surface inside out.
#[derive(Clone, Copy, Debug, PartialEq, Eq, Structural)]
pub struct Sphere {
    pub center: Point,
    pub radius: i64,
}

/// Model of a sphere.
pub struct S3 {
    pub center: V3,
    pub radius: int,
}

impl View for Sphere {
    type V = S3;

    open spec fn view(&self) -> S3 {
        S3 { center: self.center@, radius: self.radius as int }
    }
}

/// A sphere the intersection routines accept: bounded center, radius neither
/// tiny nor huge.
pub open spec fn sphere_wf(s: S3) -> bool {
    &&& sv_bounded(s.center, crate::vec3::GEO_LIMIT as int)
    &&& MIN_RADIUS as int <= s.radius <= crate::vec3::GEO_LIMIT as int
        || -(crate::vec3::GEO_LIMIT as int) <= s.radius <= -(MIN_RADIUS as int)
}

/// The magnitude of the radius.
pub open spec fn sph_rad_abs(s: S3) -> int {
    if s.radius >= 0 {
        s.radius
    } else {
        -s.radius
    }
}

/// The padded bounding box of a sphere.
pub open spec fn sphere_box(s: S3) -> A3 {
    A3 {
        min: V3 {
            x: s.center.x - sph_rad_abs(s) - BOX_PAD as int,
            y: s.center.y - sph_rad_abs(s) - BOX_PAD as int,
            z: s.center.z - sph_rad_abs(s) - BOX_PAD as int,
        },
        max: V3 {
            x: s.center.x + sph_rad_abs(s) + BOX_PAD as int,
            y: s.center.y + sph_rad_abs(s) + BOX_PAD as int,
            z: s.center.z + sph_rad_abs(s) + BOX_PAD as int,
        },
    }
}

/// Coefficients of the quadratic `a t^2 + 2 b t + c = 0` in wide fixed-point
/// scales: `a` and `b` carry scale `FP_ONE^2`.
pub open spec fn sph_a(s: S3, r: R3) -> int {
    r.dir.x * r.dir.x + r.dir.y * r.dir.y + r.dir.z * r.dir.z
}

pub open spec fn sph_hb(s: S3, r: R3) -> int {
    (r.orig.x - s.center.x) * r.dir.x + (r.orig.y - s.center.y) * r.dir.y
        + (r.orig.z - s.center.z) * r.dir.z
}

pub open spec fn sph_c(s: S3, r: R3) -> int {
    (r.orig.x - s.center.x) * (r.orig.x - s.center.x)
        + (r.orig.y - s.center.y) * (r.orig.y - s.center.y)
        + (r.orig.z - s.center.z) * (r.orig.z - s.center.z)
        - s.radius * s.radius
}

pub open spec fn sph_disc(s: S3, r: R3) -> int {
    sph_hb(s, r) * sph_hb(s, r) - sph_a(s, r) * sph_c(s, r)
}

/// The near root of the quadratic, rounded down to a fixed-point distance.
pub open spec fn sph_root1(s: S3, r: R3) -> int {
    floor_div((-sph_hb(s, r) - sqrt_of(sph_disc(s, r))) * (FP_ONE as int), sph_a(s, r))
}

/// The far root.
pub open spec fn sph_root2(s: S3, r: R3) -> int {
    floor_div((-sph_hb(s, r) + sqrt_of(sph_disc(s, r))) * (FP_ONE as int), sph_a(s, r))
}

/// The outward normal at a surface position: the offset from the center,
/// rescaled by the radius (inverted for a negative radius).
pub open spec fn sph_normal(s: S3, p: V3) -> V3 {
    if s.radius >= 0 {
        V3 {
            x: floor_div((p.x - s.center.x) * (FP_ONE as int), s.radius),
            y: floor_div((p.y - s.center.y) * (FP_ONE as int), s.radius),
            z: floor_div((p.z - s.center.z) * (FP_ONE as int), s.radius),
        }
    } else {
        V3 {
            x: -floor_div((p.x - s.center.x) * (FP_ONE as int), -s.radius),
            y: -floor_div((p.y - s.center.y) * (FP_ONE as int), -s.radius),
            z: -floor_div((p.z - s.center.z) * (FP_ONE as int), -s.radius),
        }
    }
}

/// Texture coordinate chart on the sphere: an affine map of the outward
/// normal's first two components into `[0, FP_ONE]`.
pub open spec fn sph_uv(n: V3) -> (int, int) {
    (clamp_unit(floor_div(n.x + FP_ONE as int, 2)), clamp_unit(floor_div(n.y + FP_ONE as int, 2)))
}

pub open spec fn clamp_unit(x: int) -> int {
    if x < 0 {
        0
    } else if x > FP_ONE as int {
        FP_ONE as int
    } else {
        x
    }
}

/// The candidate record at root `t`.
pub open spec fn sph_cand(s: S3, r: R3, t: int) -> H3 {
    let p = sv_ray_at(r, t);
    let n = sph_normal(s, p);
    let uv = sph_uv(n);
    h3_new(r, p, n, t, uv.0, uv.1)
}

/// A root is accepted when its exact position is strictly inside the padded
/// box and its quantized normal did not collapse to zero.
pub open spec fn sph_accept(s: S3, r: R3, t: int) -> bool {
    &&& pos_strictly_in(sphere_box(s), r, t)
    &&& sph_normal(s, sv_ray_at(r, t)) != (V3 { x: 0, y: 0, z: 0 })
}

/// The candidate hits of a sphere along a ray, nearest first.
pub open spec fn sphere_cands(s: S3, r: R3) -> Seq<H3> {
    if sph_disc(s, r) < 0 {
        Seq::empty()
    } else {
        let o1: Seq<H3> = if sph_accept(s, r, sph_root1(s, r)) {
            seq![sph_cand(s, r, sph_root1(s, r))]
        } else {
            Seq::empty()
        };
        let o2: Seq<H3> = if sph_accept(s, r, sph_root2(s, r)) {
            seq![sph_cand(s, r, sph_root2(s, r))]
        } else {
            Seq::empty()
        };
        o1 + o2
    }
}

/// A ray the geometry accepts: bounded, with a nonzero direction.
pub open spec fn ray_wf(r: R3) -> bool {
    &&& sv_bounded(r.orig, PROD_LIMIT as int)
    &&& sv_bounded(r.dir, PROD_LIMIT as int)
    &&& r.dir != (V3 { x: 0, y: 0, z: 0 })
}

impl Sphere {
    /// The padded bounding box; every accepted hit lies strictly inside it.
    pub fn bounding_box(&self) -> (r: Option<Aabb>)
        requires
            sphere_wf(self@),
        ensures
            r is Some,
            r->Some_0@ == sphere_box(self@),
            sa_wf(sphere_box(self@)),
            sa_bounded(sphere_box(self@), 2 * PROD_LIMIT as int + BOX_PAD as int),
    {
        let rad = if self.radius >= 0 {
            self.radius
        } else {
            -self.radius
        };
        let ext = rad + BOX_PAD;
        Some(Aabb {
            min: Point(Vec3::new(self.center.0.x - ext, self.center.0.y - ext,
                self.center.0.z - ext)),
            max: Point(Vec3::new(self.center.0.x + ext, self.center.0.y + ext,
                self.center.0.z + ext)),
        })
    }

    /// The nearest intersection within `[t_min, t_max]`.
    pub fn hit(&self, ray: &Ray, t_min: i64, t_max: i64) -> (res: Option<HitRecord>)
        requires
            sphere_wf(self@),
            ray_wf(ray@),
            -(PROD_LIMIT as int) <= t_min <= PROD_LIMIT as int,
            -(PROD_LIMIT as int) <= t_max <= PROD_LIMIT as int,
        ensures
            opt_hit_matches(res, best_of(sphere_cands(self@, ray@), t_min as int, t_max as int)),
    {
        let ghost s = self@;
        let ghost rm = ray@;
        let pl: Ghost<int> = Ghost(PROD_LIMIT as int);
        proof {
            mul_bound(rm.dir.x, rm.dir.x, pl@, pl@);
            mul_bound(rm.dir.y, rm.dir.y, pl@, pl@);
            mul_bound(rm.dir.z, rm.dir.z, pl@, pl@);
            crate::vec3::square_nonneg(rm.dir.x);
            crate::vec3::square_nonneg(rm.dir.y);
            crate::vec3::square_nonneg(rm.dir.z);
            mul_bound(rm.orig.x - s.center.x, rm.dir.x, 2 * pl@, pl@);
            mul_bound(rm.orig.y - s.center.y, rm.dir.y, 2 * pl@, pl@);
            mul_bound(rm.orig.z - s.center.z, rm.dir.z, 2 * pl@, pl@);
            mul_bound(rm.orig.x - s.center.x, rm.orig.x - s.center.x, 2 * pl@, 2 * pl@);
            mul_bound(rm.orig.y - s.center.y, rm.orig.y - s.center.y, 2 * pl@, 2 * pl@);
            mul_bound(rm.orig.z - s.center.z, rm.orig.z - s.center.z, 2 * pl@, 2 * pl@);
            mul_bound(s.radius, s.radius, pl@, pl@);
        }
        let dx = ray.direction.x as i128;
        let dy = ray.direction.y as i128;
        let dz = ray.direction.z as i128;
        let ocx = (ray.orig.0.x as i128) - (self.center.0.x as i128);
        let ocy = (ray.orig.0.y as i128) - (self.center.0.y as i128);
        let ocz = (ray.orig.0.z as i128) - (self.center.0.z as i128);
        let a: i128 = dx * dx + dy * dy + dz * dz;
        let hb: i128 = ocx * dx + ocy * dy + ocz * dz;
        let c: i128 = ocx * ocx + ocy * ocy + ocz * ocz
            - (self.radius as i128) * (self.radius as i128);
        proof {
            assert(a == sph_a(s, rm));
            assert(hb == sph_hb(s, rm));
            assert(c == sph_c(s, rm));
            assert(a >= 1) by (nonlinear_arith)
                requires
                    a == rm.dir.x * rm.dir.x + rm.dir.y * rm.dir.y + rm.dir.z * rm.dir.z,
                    rm.dir.x * rm.dir.x >= 0 && rm.dir.y * rm.dir.y >= 0
                        && rm.dir.z * rm.dir.z >= 0,
                    !(rm.dir.x == 0 && rm.dir.y == 0 && rm.dir.z == 0),
            ;
            mul_bound(hb as int, hb as int, 0x6000_0000_0000_0000, 0x6000_0000_0000_0000);
            mul_bound(a as int, c as int, 3 * pl@ * pl@, 0x1_0000_0000_0000_0000);
        }
        let disc: i128 = hb * hb - a * c;
        proof {
            assert(disc == sph_disc(s, rm));
        }
        if disc < 0 {
            proof {
                assert(sphere_cands(s, rm) =~= Seq::<H3>::empty());
            }
            return None;
        }
        let sq: u128 = isqrt_u128(disc as u128);
        proof {
            lemma_sqrt_unique(disc as int, sq as int);
            assert((sq as int) * (sq as int) <= disc as int);
            assert(sq as int <= 0x1_0000_0000_0000_0000) by (nonlinear_arith)
                requires
                    (sq as int) * (sq as int) <= disc as int,
                    disc as int <= 0x6000_0000_0000_0000_0000_0000_0000_0000,
                    sq as int >= 0,
            ;
        }
        let num1: i128 = (-hb - (sq as i128)) * (FP_ONE as i128);
        let num2: i128 = (-hb + (sq as i128)) * (FP_ONE as i128);
        proof {
            mul_bound(-(hb as int) - (sq as int), FP_ONE as int,
                0x2_0000_0000_0000_0000, FP_ONE as int);
            mul_bound(-(hb as int) + (sq as int), FP_ONE as int,
                0x2_0000_0000_0000_0000, FP_ONE as int);
            assert(-(0x2_0000_0000_0000_0000) <= -(hb as int) - (sq as int)
                <= 0x2_0000_0000_0000_0000);
            assert(-(0x2_0000_0000_0000_0000) <= -(hb as int) + (sq as int)
                <= 0x2_0000_0000_0000_0000);
        }
        let root1: i128 = div_floor_i128(num1, a);
        proof {
            assert(root1 == sph_root1(s, rm));
        }
        let first = self.accept_root(ray, root1, t_min, t_max);
        proof {
            lemma_single_cand(s, rm, sph_root1(s, rm), t_min as int, t_max as int);
        }
        if let Some(rec) = first {
            proof {
                let o1 = seq![sph_cand(s, rm, sph_root1(s, rm))];
                let o2: Seq<H3> = if sph_accept(s, rm, sph_root2(s, rm)) {
                    seq![sph_cand(s, rm, sph_root2(s, rm))]
                } else {
                    Seq::empty()
                };
                crate::hit::lemma_best_of_concat(o1, o2, t_min as int, t_max as int);
                crate::hit::lemma_best_of_props(o2, t_min as int, t_max as int);
                lemma_single_cand(s, rm, sph_root2(s, rm), t_min as int, t_max as int);
                lemma_roots_ordered(s, rm);
            }
            return Some(rec);
        }
        let root2: i128 = div_floor_i128(num2, a);
        proof {
            assert(root2 == sph_root2(s, rm));
        }
        let second = self.accept_root(ray, root2, t_min, t_max);
        proof {
            let tmin = t_min as int;
            let tmax = t_max as int;
            let o1: Seq<H3> = if sph_accept(s, rm, sph_root1(s, rm)) {
                seq![sph_cand(s, rm, sph_root1(s, rm))]
            } else {
                Seq::empty()
            };
            let o2: Seq<H3> = if sph_accept(s, rm, sph_root2(s, rm)) {
                seq![sph_cand(s, rm, sph_root2(s, rm))]
            } else {
                Seq::empty()
            };
            crate::hit::lemma_best_of_concat(o1, o2, tmin, tmax);
            lemma_single_cand(s, rm, sph_root1(s, rm), tmin, tmax);
            lemma_single_cand(s, rm, sph_root2(s, rm), tmin, tmax);
        }
        second
    }

    /// Checks one root: window membership, the strict box check, and the
    /// normal; builds the record if all pass.
    fn accept_root(&self, ray: &Ray, t128: i128, t_min: i64, t_max: i64)
        -> (res: Option<HitRecord>)
        requires
            sphere_wf(self@),
            ray_wf(ray@),
            -(PROD_LIMIT as int) <= t_min <= PROD_LIMIT as int,
            -(PROD_LIMIT as int) <= t_max <= PROD_LIMIT as int,
        ensures
            res is Some <==> t_min as int <= t128 <= t_max as int
                && sph_accept(self@, ray@, t128 as int),
            res is Some ==> res->Some_0@ == sph_cand(self@, ray@, t128 as int),
    {
        let ghost s = self@;
        let ghost rm = ray@;
        if t128 < (t_min as i128) || t128 > (t_max as i128) {
            return None;
        }
        let t: i64 = t128 as i64;
        // The exact position numerators, scale FP_ONE^2.
        proof {
            mul_bound(rm.dir.x, t as int, PROD_LIMIT as int, PROD_LIMIT as int);
            mul_bound(rm.dir.y, t as int, PROD_LIMIT as int, PROD_LIMIT as int);
            mul_bound(rm.dir.z, t as int, PROD_LIMIT as int, PROD_LIMIT as int);
            mul_bound(rm.orig.x, FP_ONE as int, PROD_LIMIT as int, FP_ONE as int);
            mul_bound(rm.orig.y, FP_ONE as int, PROD_LIMIT as int, FP_ONE as int);
            mul_bound(rm.orig.z, FP_ONE as int, PROD_LIMIT as int, FP_ONE as int);
        }
        let pnx: i128 = (ray.orig.0.x as i128) * (FP_ONE as i128)
            + (ray.direction.x as i128) * (t as i128);
        let pny: i128 = (ray.orig.0.y as i128) * (FP_ONE as i128)
            + (ray.direction.y as i128) * (t as i128);
        let pnz: i128 = (ray.orig.0.z as i128) * (FP_ONE as i128)
            + (ray.direction.z as i128) * (t as i128);
        let rad = if self.radius >= 0 {
            self.radius
        } else {
            -self.radius
        };
        let ext: i64 = rad + BOX_PAD;
        let bx = sphere_box_corners(&self.center, ext);
        proof {
            assert(bx.0@ == sphere_box(s).min && bx.1@ == sphere_box(s).max);
        }
        let inside = box_check(&bx.0, &bx.1, pnx, pny, pnz);
        if !inside {
            return None;
        }
        // The quantized position and the outward normal.
        let p = ray.at(t);
        proof {
            lemma_normal_bounds(s, rm, t as int);
        }
        let n = sphere_normal_at(&p, &self.center, self.radius);
        if n.near_zero() {
            return None;
        }
        let un = div_floor_i128((n.x as i128) + (FP_ONE as i128), 2);
        let vn = div_floor_i128((n.y as i128) + (FP_ONE as i128), 2);
        proof {
            crate::fixed::lemma_floor_div_bound(n@.x + FP_ONE as int, 2);
            crate::fixed::lemma_floor_div_bound(n@.y + FP_ONE as int, 2);
        }
        let u = clamp_unit_exec(un as i64);
        let v = clamp_unit_exec(vn as i64);
        Some(HitRecord::new(ray, p, n, t, u, v))
    }
}

/// The two corners of the padded box of a sphere.
fn sphere_box_corners(center: &Point, ext: i64) -> (r: (Point, Point))
    requires
        sv_bounded(center@, PROD_LIMIT as int),
        0 <= ext <= PROD_LIMIT as int + BOX_PAD as int,
    ensures
        r.0@ == (V3 { x: center@.x - ext, y: center@.y - ext, z: center@.z - ext }),
        r.1@ == (V3 { x: center@.x + ext, y: center@.y + ext, z: center@.z + ext }),
{
    (
        Point(Vec3::new(center.0.x - ext, center.0.y - ext, center.0.z - ext)),
        Point(Vec3::new(center.0.x + ext, center.0.y + ext, center.0.z + ext)),
    )
}

/// Exact strict containment of a position numerator in a box.
fn box_check(mn: &Point, mx: &Point, pnx: i128, pny: i128, pnz: i128) -> (r: bool)
    requires
        sv_bounded(mn@, 3 * PROD_LIMIT as int),
        sv_bounded(mx@, 3 * PROD_LIMIT as int),
    ensures
        r == {
            &&& mn@.x * (FP_ONE as int) < pnx < mx@.x * (FP_ONE as int)
            &&& mn@.y * (FP_ONE as int) < pny < mx@.y * (FP_ONE as int)
            &&& mn@.z * (FP_ONE as int) < pnz < mx@.z * (FP_ONE as int)
        },
{
    proof {
        let l = 3 * PROD_LIMIT as int;
        mul_bound(mn@.x, FP_ONE as int, l, FP_ONE as int);
        mul_bound(mn@.y, FP_ONE as int, l, FP_ONE as int);
        mul_bound(mn@.z, FP_ONE as int, l, FP_ONE as int);
        mul_bound(mx@.x, FP_ONE as int, l, FP_ONE as int);
        mul_bound(mx@.y, FP_ONE as int, l, FP_ONE as int);
        mul_bound(mx@.z, FP_ONE as int, l, FP_ONE as int);
    }
    ((mn.0.x as i128) * (FP_ONE as i128) < pnx && pnx < (mx.0.x as i128) * (FP_ONE as i128))
        && ((mn.0.y as i128) * (FP_ONE as i128) < pny && pny < (mx.0.y as i128)
            * (FP_ONE as i128))
        && ((mn.0.z as i128) * (FP_ONE as i128) < pnz && pnz < (mx.0.z as i128)
            * (FP_ONE as i128))
}

/// The outward normal at a surface position.
fn sphere_normal_at(p: &Point, center: &Point, radius: i64) -> (n: Vec3)
    requires
        sv_bounded(p@, 2 * crate::vec3::VEC_LIMIT as int),
        sv_bounded(center@, PROD_LIMIT as int),
        MIN_RADIUS as int <= radius <= PROD_LIMIT as int
            || -(PROD_LIMIT as int) <= radius <= -(MIN_RADIUS as int),
    ensures
        n@ == sph_normal(S3 { center: center@, radius: radius as int }, p@),
{
    let rad: i64 = if radius >= 0 {
        radius
    } else {
        -radius
    };
    proof {
        let l = 2 * crate::vec3::VEC_LIMIT as int + PROD_LIMIT as int;
        mul_bound(p@.x - center@.x, FP_ONE as int, l, FP_ONE as int);
        mul_bound(p@.y - center@.y, FP_ONE as int, l, FP_ONE as int);
        mul_bound(p@.z - center@.z, FP_ONE as int, l, FP_ONE as int);
    }
    let nx = div_floor_i128(((p.0.x as i128) - (center.0.x as i128)) * (FP_ONE as i128),
        rad as i128);
    let ny = div_floor_i128(((p.0.y as i128) - (center.0.y as i128)) * (FP_ONE as i128),
        rad as i128);
    let nz = div_floor_i128(((p.0.z as i128) - (center.0.z as i128)) * (FP_ONE as i128),
        rad as i128);
    proof {
        crate::fixed::lemma_floor_div_bound((p@.x - center@.x) * (FP_ONE as int), rad as int);
        crate::fixed::lemma_floor_div_bound((p@.y - center@.y) * (FP_ONE as int), rad as int);
        crate::fixed::lemma_floor_div_bound((p@.z - center@.z) * (FP_ONE as int), rad as int);
    }
    if radius >= 0 {
        Vec3 { x: nx as i64, y: ny as i64, z: nz as i64 }
    } else {
        Vec3 { x: -nx as i64, y: -ny as i64, z: -nz as i64 }
    }
}

/// Clamp a texture coordinate into `[0, FP_ONE]`.
fn clamp_unit_exec(x: i64) -> (r: i64)
    ensures
        r == clamp_unit(x as int),
{
    if x < 0 {
        0
    } else if x > FP_ONE {
        FP_ONE
    } else {
        x
    }
}

/// The near root is at most the far root.
proof fn lemma_roots_ordered(s: S3, r: R3)
    requires
        sphere_wf(s),
        ray_wf(r),
        sph_disc(s, r) >= 0,
        sph_a(s, r) >= 1,
    ensures
        sph_root1(s, r) <= sph_root2(s, r),
{
    let d = sqrt_of(sph_disc(s, r));
    crate::vec3::lemma_sqrt_exists(sph_disc(s, r));
    assert(d >= 0);
    let n1 = (-sph_hb(s, r) - d) * (FP_ONE as int);
    let n2 = (-sph_hb(s, r) + d) * (FP_ONE as int);
    assert(n1 <= n2) by (nonlinear_arith)
        requires
            d >= 0,
            n1 == (-sph_hb(s, r) - d) * (FP_ONE as int),
            n2 == (-sph_hb(s, r) + d) * (FP_ONE as int),
    ;
    vstd::arithmetic::div_mod::lemma_div_is_ordered(n1, n2, sph_a(s, r));
}

/// `best_of` over the possible singleton of one root.
proof fn lemma_single_cand(s: S3, r: R3, t: int, tmin: int, tmax: int)
    ensures
        ({
            let o: Seq<H3> = if sph_accept(s, r, t) {
                seq![sph_cand(s, r, t)]
            } else {
                Seq::empty()
            };
            best_of(o, tmin, tmax) == if sph_accept(s, r, t) && tmin <= t <= tmax {
                Some(sph_cand(s, r, t))
            } else {
                None::<H3>
            }
        }),
{
    if sph_accept(s, r, t) {
        let o = seq![sph_cand(s, r, t)];
        assert(o.len() == 1);
        assert(o[0] == sph_cand(s, r, t));
        assert(o.drop_first() =~= Seq::<H3>::empty());
        assert(best_of(o.drop_first(), tmin, tmax) is None);
        assert(sph_cand(s, r, t).t == t);
        if tmin <= t <= tmax {
            assert(best_of(o, tmin, tmax) == Some(sph_cand(s, r, t)));
        } else {
            assert(best_of(o, tmin, tmax) is None);
        }
    }
}

/// The accepted normal's components stay within a couple of units.
proof fn lemma_normal_bounds(s: S3, r: R3, t: int)
    requires
        sphere_wf(s),
        ray_wf(r),
        pos_strictly_in(sphere_box(s), r, t),
        -(PROD_LIMIT as int) <= t <= PROD_LIMIT as int,
    ensures
        sv_bounded(sv_ray_at(r, t), 2 * crate::vec3::VEC_LIMIT as int),
        sv_bounded(sph_normal(s, sv_ray_at(r, t)), 2 * FP_ONE as int),
{
    let p = sv_ray_at(r, t);
    let f = FP_ONE as int;
    let rad = sph_rad_abs(s);
    mul_bound(r.dir.x, t, PROD_LIMIT as int, PROD_LIMIT as int);
    mul_bound(r.dir.y, t, PROD_LIMIT as int, PROD_LIMIT as int);
    mul_bound(r.dir.z, t, PROD_LIMIT as int, PROD_LIMIT as int);
    crate::fixed::lemma_floor_div_bound(r.dir.x * t, f);
    crate::fixed::lemma_floor_div_bound(r.dir.y * t, f);
    crate::fixed::lemma_floor_div_bound(r.dir.z * t, f);
    // Each quantized position component is within one quantum of the exact
    // numerator, which the strict box check bounds.
    lemma_axis_normal(s.center.x, rad, r.orig.x, r.dir.x, t, p.x);
    lemma_axis_normal(s.center.y, rad, r.orig.y, r.dir.y, t, p.y);
    lemma_axis_normal(s.center.z, rad, r.orig.z, r.dir.z, t, p.z);
}

/// One axis of the normal-bound argument (public form).
pub proof fn lemma_axis_normal_pub(c: int, rad: int, o: int, d: int, t: int, pa: int)
    requires
        MIN_RADIUS as int <= rad <= PROD_LIMIT as int,
        (c - rad - BOX_PAD as int) * (FP_ONE as int) < o * (FP_ONE as int) + d * t
            < (c + rad + BOX_PAD as int) * (FP_ONE as int),
        pa == o + floor_div(d * t, FP_ONE as int),
    ensures
        c - rad - BOX_PAD as int - 1 <= pa <= c + rad + BOX_PAD as int,
        -(2 * FP_ONE as int) <= floor_div((pa - c) * (FP_ONE as int), rad) <= 2 * FP_ONE as int,
        -(2 * FP_ONE as int) <= -floor_div((pa - c) * (FP_ONE as int), rad) <= 2 * FP_ONE as int,
{
    lemma_axis_normal(c, rad, o, d, t, pa);
}

/// One axis of the normal-bound argument.
proof fn lemma_axis_normal(c: int, rad: int, o: int, d: int, t: int, pa: int)
    requires
        MIN_RADIUS as int <= rad <= PROD_LIMIT as int,
        (c - rad - BOX_PAD as int) * (FP_ONE as int) < o * (FP_ONE as int) + d * t
            < (c + rad + BOX_PAD as int) * (FP_ONE as int),
        pa == o + floor_div(d * t, FP_ONE as int),
    ensures
        c - rad - BOX_PAD as int - 1 <= pa <= c + rad + BOX_PAD as int,
        -(2 * FP_ONE as int) <= floor_div((pa - c) * (FP_ONE as int), rad) <= 2 * FP_ONE as int,
        -(2 * FP_ONE as int) <= -floor_div((pa - c) * (FP_ONE as int), rad) <= 2 * FP_ONE as int,
{
    let f = FP_ONE as int;
    vstd::arithmetic::div_mod::lemma_fundamental_div_mod(d * t, f);
    vstd::arithmetic::div_mod::lemma_mod_bound(d * t, f);
    // pa * f is within f of the exact numerator o * f + d * t.
    assert(pa * f <= o * f + d * t < pa * f + f) by (nonlinear_arith)
        requires
            pa == o + (d * t) / f,
            d * t == f * ((d * t) / f) + (d * t) % f,
            0 <= (d * t) % f < f,
            f >= 1,
    ;
    assert((c - rad - BOX_PAD as int - 1) * f < pa * f) by (nonlinear_arith)
        requires
            (c - rad - BOX_PAD as int) * f < pa * f + f,
            f >= 1,
    ;
    assert(c - rad - BOX_PAD as int - 1 <= pa <= c + rad + BOX_PAD as int) by (nonlinear_arith)
        requires
            (c - rad - BOX_PAD as int - 1) * f < pa * f,
            pa * f < (c + rad + BOX_PAD as int) * f,
            f >= 1,
    ;
    // |pa - c| <= rad + BOX_PAD + 1 <= 2 rad, since rad >= MIN_RADIUS.
    assert(-(2 * rad) <= pa - c <= 2 * rad);
    assert(-((2 * f) * rad) <= (pa - c) * f <= (2 * f) * rad) by (nonlinear_arith)
        requires
            -(2 * rad) <= pa - c <= 2 * rad,
            f >= 1,
            rad >= 1,
    ;
    crate::fixed::lemma_floor_div_shrink((pa - c) * f, rad, 2 * f);
}

} // verus!

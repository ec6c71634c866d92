//! Axis-aligned rectangles and boxes built from six of them.

use vstd::prelude::*;

use crate::aabb::{
    lemma_pos_in_mono, pos_strictly_in, sa_bounded, sa_contains, sa_wf, Aabb, A3, BOX_PAD,
};
use crate::fixed::{div_floor_i128, floor_div, FP_ONE};
use crate::hit::{
    best_of, h3_new, lemma_best_of_concat, lemma_best_of_singleton, merge_hits, opt_hit_matches,
    HitRecord, H3,
};
use crate::sphere::{clamp_unit, ray_wf};
use crate::vec3::{mul_bound, sv_bounded, sv_ray_at, Point, Ray, R3, V3, Vec3, PROD_LIMIT};

verus! {

/// The coordinate plane a rectangle lies parallel to.
#[derive(Clone, Copy, Debug, PartialEq, Eq, Structural)]
pub enum Plane {
    XY,
    YZ,
    XZ,
}

/// A rectangle on one of the three coordinate planes: bounds on its two free
/// axes and a fixed offset on the third.
#[derive(Clone, Copy, Debug, PartialEq, Eq, Structural)]
pub struct Rect {
    pub plane: Plane,
    pub d1_min: i64,
    pub d1_max: i64,
    pub d2_min: i64,
    pub d2_max: i64,
    pub offset: i64,
}

/// A rectangle on the XY plane (offset on Z).
pub fn xy_rect(d1_min: i64, d1_max: i64, d2_min: i64, d2_max: i64, offset: i64) -> (r: Rect)
    ensures
        r == (Rect { plane: Plane::XY, d1_min, d1_max, d2_min, d2_max, offset }),
{
    Rect { plane: Plane::XY, d1_min, d1_max, d2_min, d2_max, offset }
}

/// A rectangle on the YZ plane (offset on X).
pub fn yz_rect(d1_min: i64, d1_max: i64, d2_min: i64, d2_max: i64, offset: i64) -> (r: Rect)
    ensures
        r == (Rect { plane: Plane::YZ, d1_min, d1_max, d2_min, d2_max, offset }),
{
    Rect { plane: Plane::YZ, d1_min, d1_max, d2_min, d2_max, offset }
}

/// A rectangle on the XZ plane (offset on Y).
pub fn xz_rect(d1_min: i64, d1_max: i64, d2_min: i64, d2_max: i64, offset: i64) -> (r: Rect)
    ensures
        r == (Rect { plane: Plane::XZ, d1_min, d1_max, d2_min, d2_max, offset }),
{
    Rect { plane: Plane::XZ, d1_min, d1_max, d2_min, d2_max, offset }
}

/// Bounds ordered and within range.
pub open spec fn rect_wf(rc: Rect) -> bool {
    &&& -(crate::vec3::GEO_LIMIT as int) <= rc.d1_min < rc.d1_max
        <= crate::vec3::GEO_LIMIT as int
    &&& -(crate::vec3::GEO_LIMIT as int) <= rc.d2_min < rc.d2_max
        <= crate::vec3::GEO_LIMIT as int
    &&& -(crate::vec3::GEO_LIMIT as int) <= rc.offset <= crate::vec3::GEO_LIMIT as int
}

/// The rectangle's corners arranged on the world axes: `(min, max)`.
pub open spec fn rect_box_model(rc: Rect) -> A3 {
    let p = BOX_PAD as int;
    match rc.plane {
        Plane::XY => A3 {
            min: V3 { x: rc.d1_min - p, y: rc.d2_min - p, z: rc.offset - p },
            max: V3 { x: rc.d1_max + p, y: rc.d2_max + p, z: rc.offset + p },
        },
        Plane::YZ => A3 {
            min: V3 { x: rc.offset - p, y: rc.d1_min - p, z: rc.d2_min - p },
            max: V3 { x: rc.offset + p, y: rc.d1_max + p, z: rc.d2_max + p },
        },
        Plane::XZ => A3 {
            min: V3 { x: rc.d1_min - p, y: rc.offset - p, z: rc.d2_min - p },
            max: V3 { x: rc.d1_max + p, y: rc.offset + p, z: rc.d2_max + p },
        },
    }
}

/// The fixed-axis components of origin and direction.
pub open spec fn rect_o3(rc: Rect, r: R3) -> int {
    match rc.plane {
        Plane::XY => r.orig.z,
        Plane::YZ => r.orig.x,
        Plane::XZ => r.orig.y,
    }
}

pub open spec fn rect_d3(rc: Rect, r: R3) -> int {
    match rc.plane {
        Plane::XY => r.dir.z,
        Plane::YZ => r.dir.x,
        Plane::XZ => r.dir.y,
    }
}

/// The free-axis components of a position.
pub open spec fn rect_p1(rc: Rect, p: V3) -> int {
    match rc.plane {
        Plane::XY => p.x,
        Plane::YZ => p.y,
        Plane::XZ => p.x,
    }
}

pub open spec fn rect_p2(rc: Rect, p: V3) -> int {
    match rc.plane {
        Plane::XY => p.y,
        Plane::YZ => p.z,
        Plane::XZ => p.z,
    }
}

/// The plane's outward normal before the front-face flip.
pub open spec fn rect_normal(rc: Rect) -> V3 {
    match rc.plane {
        Plane::XY => V3 { x: 0, y: 0, z: FP_ONE as int },
        Plane::YZ => V3 { x: FP_ONE as int, y: 0, z: 0 },
        Plane::XZ => V3 { x: 0, y: FP_ONE as int, z: 0 },
    }
}

/// The parametric distance at which the ray crosses the plane.
pub open spec fn rect_t(rc: Rect, r: R3) -> int {
    let d3 = rect_d3(rc, r);
    let o3 = rect_o3(rc, r);
    if d3 > 0 {
        floor_div((rc.offset - o3) * (FP_ONE as int), d3)
    } else {
        floor_div((o3 - rc.offset) * (FP_ONE as int), -d3)
    }
}

/// The candidate record of a rectangle at distance `t`.
pub open spec fn rect_cand(rc: Rect, r: R3, t: int) -> H3 {
    let p = sv_ray_at(r, t);
    let u = clamp_unit(floor_div((rect_p1(rc, p) - rc.d1_min) * (FP_ONE as int),
        rc.d1_max - rc.d1_min));
    let v = clamp_unit(floor_div((rect_p2(rc, p) - rc.d2_min) * (FP_ONE as int),
        rc.d2_max - rc.d2_min));
    h3_new(r, p, rect_normal(rc), t, u, v)
}

/// The candidate hits of a rectangle: at most one, accepted when the exact
/// crossing position lies strictly inside the padded box.
pub open spec fn rect_cands(rc: Rect, r: R3) -> Seq<H3> {
    if rect_d3(rc, r) == 0 {
        Seq::empty()
    } else if pos_strictly_in(rect_box_model(rc), r, rect_t(rc, r)) {
        seq![rect_cand(rc, r, rect_t(rc, r))]
    } else {
        Seq::empty()
    }
}

impl Rect {
    /// The padded bounding box (thin on the fixed axis).
    pub fn bounding_box(&self) -> (r: Option<Aabb>)
        requires
            rect_wf(*self),
        ensures
            r is Some,
            r->Some_0@ == rect_box_model(*self),
            sa_wf(rect_box_model(*self)),
            sa_bounded(rect_box_model(*self), PROD_LIMIT as int + BOX_PAD as int),
    {
        let p = BOX_PAD;
        let (mn, mx) = match self.plane {
            Plane::XY => (
                Vec3::new(self.d1_min - p, self.d2_min - p, self.offset - p),
                Vec3::new(self.d1_max + p, self.d2_max + p, self.offset + p),
            ),
            Plane::YZ => (
                Vec3::new(self.offset - p, self.d1_min - p, self.d2_min - p),
                Vec3::new(self.offset + p, self.d1_max + p, self.d2_max + p),
            ),
            Plane::XZ => (
                Vec3::new(self.d1_min - p, self.offset - p, self.d2_min - p),
                Vec3::new(self.d1_max + p, self.offset + p, self.d2_max + p),
            ),
        };
        Some(Aabb { min: Point(mn), max: Point(mx) })
    }

    /// The intersection with the rectangle's plane, if it lands on the
    /// rectangle within the window.
    pub fn hit(&self, ray: &Ray, t_min: i64, t_max: i64) -> (res: Option<HitRecord>)
        requires
            rect_wf(*self),
            ray_wf(ray@),
            -(PROD_LIMIT as int) <= t_min <= PROD_LIMIT as int,
            -(PROD_LIMIT as int) <= t_max <= PROD_LIMIT as int,
        ensures
            opt_hit_matches(res, best_of(rect_cands(*self, ray@), t_min as int, t_max as int)),
    {
        let ghost rm = ray@;
        let (o3, d3): (i64, i64) = match self.plane {
            Plane::XY => (ray.orig.0.z, ray.direction.z),
            Plane::YZ => (ray.orig.0.x, ray.direction.x),
            Plane::XZ => (ray.orig.0.y, ray.direction.y),
        };
        if d3 == 0 {
            return None;
        }
        proof {
            mul_bound(self.offset as int - o3 as int, FP_ONE as int, 2 * PROD_LIMIT as int,
                FP_ONE as int);
            mul_bound(o3 as int - self.offset as int, FP_ONE as int, 2 * PROD_LIMIT as int,
                FP_ONE as int);
        }
        let t128: i128 = if d3 > 0 {
            div_floor_i128(((self.offset as i128) - (o3 as i128)) * (FP_ONE as i128), d3 as i128)
        } else {
            div_floor_i128(((o3 as i128) - (self.offset as i128)) * (FP_ONE as i128),
                -(d3 as i128))
        };
        proof {
            assert(t128 == rect_t(*self, rm));
        }
        if t128 < (t_min as i128) || t128 > (t_max as i128) {
            proof {
                if rect_cands(*self, rm).len() > 0 {
                    lemma_best_of_singleton(rect_cand(*self, rm, rect_t(*self, rm)),
                        t_min as int, t_max as int);
                }
            }
            return None;
        }
        let t: i64 = t128 as i64;
        proof {
            mul_bound(rm.dir.x, t as int, PROD_LIMIT as int, PROD_LIMIT as int);
            mul_bound(rm.dir.y, t as int, PROD_LIMIT as int, PROD_LIMIT as int);
            mul_bound(rm.dir.z, t as int, PROD_LIMIT as int, PROD_LIMIT as int);
            mul_bound(rm.orig.x, FP_ONE as int, PROD_LIMIT as int, FP_ONE as int);
            mul_bound(rm.orig.y, FP_ONE as int, PROD_LIMIT as int, FP_ONE as int);
            mul_bound(rm.orig.z, FP_ONE as int, PROD_LIMIT as int, FP_ONE as int);
        }
        let pnx: i128 = (ray.orig.0.x as i128) * (FP_ONE as i128)
            + (ray.direction.x as i128) * (t as i128);
        let pny: i128 = (ray.orig.0.y as i128) * (FP_ONE as i128)
            + (ray.direction.y as i128) * (t as i128);
        let pnz: i128 = (ray.orig.0.z as i128) * (FP_ONE as i128)
            + (ray.direction.z as i128) * (t as i128);
        let bb = self.bounding_box();
        let bx = match bb {
            Some(b) => b,
            None => {
                return None;
            },
        };
        let inside = rect_box_check(&bx, pnx, pny, pnz);
        if !inside {
            return None;
        }
        let p = ray.at(t);
        let (p1, p2): (i64, i64) = match self.plane {
            Plane::XY => (p.0.x, p.0.y),
            Plane::YZ => (p.0.y, p.0.z),
            Plane::XZ => (p.0.x, p.0.z),
        };
        proof {
            let l = 2 * crate::vec3::VEC_LIMIT as int + PROD_LIMIT as int;
            mul_bound(p1 as int - self.d1_min as int, FP_ONE as int, l, FP_ONE as int);
            mul_bound(p2 as int - self.d2_min as int, FP_ONE as int, l, FP_ONE as int);
        }
        let un = div_floor_i128(((p1 as i128) - (self.d1_min as i128)) * (FP_ONE as i128),
            (self.d1_max as i128) - (self.d1_min as i128));
        let vn = div_floor_i128(((p2 as i128) - (self.d2_min as i128)) * (FP_ONE as i128),
            (self.d2_max as i128) - (self.d2_min as i128));
        proof {
            crate::fixed::lemma_floor_div_bound((p1 as int - self.d1_min as int)
                * (FP_ONE as int), self.d1_max as int - self.d1_min as int);
            crate::fixed::lemma_floor_div_bound((p2 as int - self.d2_min as int)
                * (FP_ONE as int), self.d2_max as int - self.d2_min as int);
        }
        let u = clamp_unit_rect(un);
        let v = clamp_unit_rect(vn);
        let normal = match self.plane {
            Plane::XY => Vec3::new(0, 0, FP_ONE),
            Plane::YZ => Vec3::new(FP_ONE, 0, 0),
            Plane::XZ => Vec3::new(0, FP_ONE, 0),
        };
        let rec = HitRecord::new(ray, p, normal, t, u, v);
        proof {
            assert(rec@ == rect_cand(*self, rm, t as int));
            lemma_best_of_singleton(rect_cand(*self, rm, rect_t(*self, rm)), t_min as int,
                t_max as int);
        }
        Some(rec)
    }
}

/// Strict containment of a position numerator in a rectangle's box.
fn rect_box_check(b: &Aabb, pnx: i128, pny: i128, pnz: i128) -> (r: bool)
    requires
        sa_bounded(b@, 2 * PROD_LIMIT as int),
    ensures
        r == {
            &&& b@.min.x * (FP_ONE as int) < pnx < b@.max.x * (FP_ONE as int)
            &&& b@.min.y * (FP_ONE as int) < pny < b@.max.y * (FP_ONE as int)
            &&& b@.min.z * (FP_ONE as int) < pnz < b@.max.z * (FP_ONE as int)
        },
{
    proof {
        let l = 2 * PROD_LIMIT as int;
        mul_bound(b@.min.x, FP_ONE as int, l, FP_ONE as int);
        mul_bound(b@.min.y, FP_ONE as int, l, FP_ONE as int);
        mul_bound(b@.min.z, FP_ONE as int, l, FP_ONE as int);
        mul_bound(b@.max.x, FP_ONE as int, l, FP_ONE as int);
        mul_bound(b@.max.y, FP_ONE as int, l, FP_ONE as int);
        mul_bound(b@.max.z, FP_ONE as int, l, FP_ONE as int);
    }
    ((b.min.0.x as i128) * (FP_ONE as i128) < pnx && pnx < (b.max.0.x as i128)
        * (FP_ONE as i128))
        && ((b.min.0.y as i128) * (FP_ONE as i128) < pny && pny < (b.max.0.y as i128)
            * (FP_ONE as i128))
        && ((b.min.0.z as i128) * (FP_ONE as i128) < pnz && pnz < (b.max.0.z as i128)
            * (FP_ONE as i128))
}

/// Clamp a texture coordinate into `[0, FP_ONE]`.
fn clamp_unit_rect(x: i128) -> (r: i64)
    requires
        x > i128::MIN,
    ensures
        r == clamp_unit(x as int),
{
    if x < 0 {
        0
    } else if x > (FP_ONE as i128) {
        FP_ONE
    } else {
        x as i64
    }
}

} // verus!

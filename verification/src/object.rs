//! Boxes assembled from six rectangles, and the closed union of all
//! geometric shapes.

use vstd::prelude::*;

use crate::aabb::{
    lemma_pos_in_mono, pos_strictly_in, sa_bounded, sa_contains, sa_wf, Aabb, A3, BOX_PAD,
};
use crate::hit::{
    best_of, lemma_best_of_concat, merge_hits, opt_hit_matches, opt_view, HitRecord, H3,
};
use crate::rect::{rect_box_model, rect_cands, rect_wf, xy_rect, xz_rect, yz_rect, Rect};
use crate::sphere::{ray_wf, sphere_box, sphere_cands, sphere_wf, Sphere};
use crate::vec3::{sv_bounded, Point, Ray, R3, V3, PROD_LIMIT};

verus! {

/// An axis-aligned box realized as six rectangles.
#[derive(Clone, Copy, Debug, PartialEq, Eq, Structural)]
pub struct RectBox {
    pub min: Point,
    pub max: Point,
    pub xy0: Rect,
    pub xy1: Rect,
    pub yz0: Rect,
    pub yz1: Rect,
    pub xz0: Rect,
    pub xz1: Rect,
}

/// The six faces are exactly those spanned by the two corners.
pub open spec fn rectbox_wf(b: RectBox) -> bool {
    let p0 = b.min@;
    let p1 = b.max@;
    &&& sv_bounded(p0, crate::vec3::GEO_LIMIT as int) && sv_bounded(p1,
        crate::vec3::GEO_LIMIT as int)
    &&& p0.x < p1.x && p0.y < p1.y && p0.z < p1.z
    &&& b.xy0 == (Rect {
        plane: crate::rect::Plane::XY,
        d1_min: b.min.0.x,
        d1_max: b.max.0.x,
        d2_min: b.min.0.y,
        d2_max: b.max.0.y,
        offset: b.max.0.z,
    })
    &&& b.xy1 == (Rect {
        plane: crate::rect::Plane::XY,
        d1_min: b.min.0.x,
        d1_max: b.max.0.x,
        d2_min: b.min.0.y,
        d2_max: b.max.0.y,
        offset: b.min.0.z,
    })
    &&& b.yz0 == (Rect {
        plane: crate::rect::Plane::YZ,
        d1_min: b.min.0.y,
        d1_max: b.max.0.y,
        d2_min: b.min.0.z,
        d2_max: b.max.0.z,
        offset: b.max.0.x,
    })
    &&& b.yz1 == (Rect {
        plane: crate::rect::Plane::YZ,
        d1_min: b.min.0.y,
        d1_max: b.max.0.y,
        d2_min: b.min.0.z,
        d2_max: b.max.0.z,
        offset: b.min.0.x,
    })
    &&& b.xz0 == (Rect {
        plane: crate::rect::Plane::XZ,
        d1_min: b.min.0.x,
        d1_max: b.max.0.x,
        d2_min: b.min.0.z,
        d2_max: b.max.0.z,
        offset: b.max.0.y,
    })
    &&& b.xz1 == (Rect {
        plane: crate::rect::Plane::XZ,
        d1_min: b.min.0.x,
        d1_max: b.max.0.x,
        d2_min: b.min.0.z,
        d2_max: b.max.0.z,
        offset: b.min.0.y,
    })
}

/// The padded bounding box of the whole box.
pub open spec fn rectbox_box(b: RectBox) -> A3 {
    A3 {
        min: V3 {
            x: b.min@.x - BOX_PAD as int,
            y: b.min@.y - BOX_PAD as int,
            z: b.min@.z - BOX_PAD as int,
        },
        max: V3 {
            x: b.max@.x + BOX_PAD as int,
            y: b.max@.y + BOX_PAD as int,
            z: b.max@.z + BOX_PAD as int,
        },
    }
}

/// The candidates of the box: its six faces', in a fixed order.
pub open spec fn rectbox_cands(b: RectBox, r: R3) -> Seq<H3> {
    rect_cands(b.xy0, r) + rect_cands(b.xy1, r) + rect_cands(b.yz0, r) + rect_cands(b.yz1, r)
        + rect_cands(b.xz0, r) + rect_cands(b.xz1, r)
}

impl RectBox {
    /// Builds the box spanned by two opposite corners.
    pub fn new(p0: Point, p1: Point) -> (b: RectBox)
        requires
            sv_bounded(p0@, crate::vec3::GEO_LIMIT as int),
            sv_bounded(p1@, crate::vec3::GEO_LIMIT as int),
            p0@.x < p1@.x && p0@.y < p1@.y && p0@.z < p1@.z,
        ensures
            rectbox_wf(b),
            b.min == p0 && b.max == p1,
    {
        RectBox {
            min: p0,
            max: p1,
            xy0: xy_rect(p0.0.x, p1.0.x, p0.0.y, p1.0.y, p1.0.z),
            xy1: xy_rect(p0.0.x, p1.0.x, p0.0.y, p1.0.y, p0.0.z),
            yz0: yz_rect(p0.0.y, p1.0.y, p0.0.z, p1.0.z, p1.0.x),
            yz1: yz_rect(p0.0.y, p1.0.y, p0.0.z, p1.0.z, p0.0.x),
            xz0: xz_rect(p0.0.x, p1.0.x, p0.0.z, p1.0.z, p1.0.y),
            xz1: xz_rect(p0.0.x, p1.0.x, p0.0.z, p1.0.z, p0.0.y),
        }
    }

    /// The padded bounding box of the whole box.
    pub fn bounding_box(&self) -> (r: Option<Aabb>)
        requires
            rectbox_wf(*self),
        ensures
            r is Some,
            r->Some_0@ == rectbox_box(*self),
            sa_wf(rectbox_box(*self)),
            sa_bounded(rectbox_box(*self), PROD_LIMIT as int + BOX_PAD as int),
    {
        Some(Aabb {
            min: Point(crate::vec3::Vec3::new(self.min.0.x - BOX_PAD, self.min.0.y - BOX_PAD,
                self.min.0.z - BOX_PAD)),
            max: Point(crate::vec3::Vec3::new(self.max.0.x + BOX_PAD, self.max.0.y + BOX_PAD,
                self.max.0.z + BOX_PAD)),
        })
    }

    /// The nearest intersection with any of the six faces.
    pub fn hit(&self, ray: &Ray, t_min: i64, t_max: i64) -> (res: Option<HitRecord>)
        requires
            rectbox_wf(*self),
            ray_wf(ray@),
            -(PROD_LIMIT as int) <= t_min <= PROD_LIMIT as int,
            -(PROD_LIMIT as int) <= t_max <= PROD_LIMIT as int,
        ensures
            opt_hit_matches(res, best_of(rectbox_cands(*self, ray@), t_min as int,
                t_max as int)),
    {
        let ghost rm = ray@;
        let ghost tmin = t_min as int;
        let ghost tmax = t_max as int;
        let h0 = self.xy0.hit(ray, t_min, t_max);
        let h1 = self.xy1.hit(ray, t_min, t_max);
        let h2 = self.yz0.hit(ray, t_min, t_max);
        let h3 = self.yz1.hit(ray, t_min, t_max);
        let h4 = self.xz0.hit(ray, t_min, t_max);
        let h5 = self.xz1.hit(ray, t_min, t_max);
        let best = merge_closer(merge_closer(merge_closer(merge_closer(merge_closer(h0, h1),
            h2), h3), h4), h5);
        proof {
            let c0 = rect_cands(self.xy0, rm);
            let c1 = rect_cands(self.xy1, rm);
            let c2 = rect_cands(self.yz0, rm);
            let c3 = rect_cands(self.yz1, rm);
            let c4 = rect_cands(self.xz0, rm);
            let c5 = rect_cands(self.xz1, rm);
            lemma_best_of_concat(c0, c1, tmin, tmax);
            lemma_best_of_concat(c0 + c1, c2, tmin, tmax);
            lemma_best_of_concat(c0 + c1 + c2, c3, tmin, tmax);
            lemma_best_of_concat(c0 + c1 + c2 + c3, c4, tmin, tmax);
            lemma_best_of_concat(c0 + c1 + c2 + c3 + c4, c5, tmin, tmax);
        }
        best
    }
}

/// Keeps the closer of two hits, the first one on ties.
fn merge_closer(a: Option<HitRecord>, b: Option<HitRecord>) -> (r: Option<HitRecord>)
    ensures
        opt_view(r) == merge_hits(opt_view(a), opt_view(b)),
{
    match (a, b) {
        (None, b) => b,
        (a, None) => a,
        (Some(x), Some(y)) => if y.t < x.t {
            Some(y)
        } else {
            Some(x)
        },
    }
}

/// The closed set of geometric shapes.
#[derive(Clone, Copy, Debug, PartialEq, Eq, Structural)]
pub enum GeometricObject {
    Sphere(Sphere),
    Rect(Rect),
    RectBox(RectBox),
}

/// Shape-specific well-formedness.
pub open spec fn geo_wf(g: GeometricObject) -> bool {
    match g {
        GeometricObject::Sphere(s) => sphere_wf(s@),
        GeometricObject::Rect(rc) => rect_wf(rc),
        GeometricObject::RectBox(b) => rectbox_wf(b),
    }
}

/// The candidate hits of a shape along a ray.
pub open spec fn geo_cands(g: GeometricObject, r: R3) -> Seq<H3> {
    match g {
        GeometricObject::Sphere(s) => sphere_cands(s@, r),
        GeometricObject::Rect(rc) => rect_cands(rc, r),
        GeometricObject::RectBox(b) => rectbox_cands(b, r),
    }
}

/// The shape's padded bounding box.
pub open spec fn geo_box(g: GeometricObject) -> A3 {
    match g {
        GeometricObject::Sphere(s) => sphere_box(s@),
        GeometricObject::Rect(rc) => rect_box_model(rc),
        GeometricObject::RectBox(b) => rectbox_box(b),
    }
}

impl GeometricObject {
    /// The nearest intersection within the window.
    pub fn hit(&self, ray: &Ray, t_min: i64, t_max: i64) -> (res: Option<HitRecord>)
        requires
            geo_wf(*self),
            ray_wf(ray@),
            -(PROD_LIMIT as int) <= t_min <= PROD_LIMIT as int,
            -(PROD_LIMIT as int) <= t_max <= PROD_LIMIT as int,
        ensures
            opt_hit_matches(res, best_of(geo_cands(*self, ray@), t_min as int, t_max as int)),
    {
        match self {
            GeometricObject::Sphere(s) => s.hit(ray, t_min, t_max),
            GeometricObject::Rect(rc) => rc.hit(ray, t_min, t_max),
            GeometricObject::RectBox(b) => b.hit(ray, t_min, t_max),
        }
    }

    /// The padded bounding box.
    pub fn bounding_box(&self) -> (r: Option<Aabb>)
        requires
            geo_wf(*self),
        ensures
            r is Some,
            r->Some_0@ == geo_box(*self),
            sa_wf(geo_box(*self)),
            sa_bounded(geo_box(*self), 2 * PROD_LIMIT as int + BOX_PAD as int),
    {
        match self {
            GeometricObject::Sphere(s) => s.bounding_box(),
            GeometricObject::Rect(rc) => rc.bounding_box(),
            GeometricObject::RectBox(b) => b.bounding_box(),
        }
    }
}

/// Every candidate's exact position lies strictly inside the shape's box —
/// the fact the tree traversal's pruning argument rests on.
pub proof fn lemma_geo_cands_in_box(g: GeometricObject, r: R3)
    requires
        geo_wf(g),
    ensures
        forall|i: int| 0 <= i < geo_cands(g, r).len() ==> pos_strictly_in(geo_box(g), r,
            (#[trigger] geo_cands(g, r)[i]).t),
{
    match g {
        GeometricObject::Sphere(s) => {
            let cands = sphere_cands(s@, r);
            assert forall|i: int| 0 <= i < cands.len() implies pos_strictly_in(geo_box(g), r,
                (#[trigger] cands[i]).t) by {
                assert(crate::sphere::sph_disc(s@, r) >= 0);
            }
        },
        GeometricObject::Rect(rc) => {
            let cands = rect_cands(rc, r);
            assert forall|i: int| 0 <= i < cands.len() implies pos_strictly_in(geo_box(g), r,
                (#[trigger] cands[i]).t) by {
            }
        },
        GeometricObject::RectBox(b) => {
            lemma_rectbox_cands_in_box(b, r);
        },
    }
}

proof fn lemma_face_cands_in_box(b: RectBox, face: Rect, r: R3)
    requires
        rectbox_wf(b),
        sa_contains(rectbox_box(b), rect_box_model(face)),
    ensures
        forall|i: int| 0 <= i < rect_cands(face, r).len() ==> pos_strictly_in(rectbox_box(b), r,
            (#[trigger] rect_cands(face, r)[i]).t),
{
    assert forall|i: int| 0 <= i < rect_cands(face, r).len() implies pos_strictly_in(
        rectbox_box(b), r, (#[trigger] rect_cands(face, r)[i]).t) by {
        lemma_pos_in_mono(rect_box_model(face), rectbox_box(b), r, rect_cands(face, r)[i].t);
    }
}

proof fn lemma_rectbox_cands_in_box(b: RectBox, r: R3)
    requires
        rectbox_wf(b),
    ensures
        forall|i: int| 0 <= i < rectbox_cands(b, r).len() ==> pos_strictly_in(rectbox_box(b), r,
            (#[trigger] rectbox_cands(b, r)[i]).t),
{
    lemma_face_cands_in_box(b, b.xy0, r);
    lemma_face_cands_in_box(b, b.xy1, r);
    lemma_face_cands_in_box(b, b.yz0, r);
    lemma_face_cands_in_box(b, b.yz1, r);
    lemma_face_cands_in_box(b, b.xz0, r);
    lemma_face_cands_in_box(b, b.xz1, r);
    let c0 = rect_cands(b.xy0, r);
    let c1 = rect_cands(b.xy1, r);
    let c2 = rect_cands(b.yz0, r);
    let c3 = rect_cands(b.yz1, r);
    let c4 = rect_cands(b.xz0, r);
    let c5 = rect_cands(b.xz1, r);
    let all = c0 + c1 + c2 + c3 + c4 + c5;
    assert forall|i: int| 0 <= i < all.len() implies pos_strictly_in(rectbox_box(b), r,
        (#[trigger] all[i]).t) by {
        let n0 = c0.len() as int;
        let n1 = n0 + c1.len();
        let n2 = n1 + c2.len();
        let n3 = n2 + c3.len();
        let n4 = n3 + c4.len();
        if i < n0 {
            assert(all[i] == c0[i]);
        } else if i < n1 {
            assert(all[i] == c1[i - n0]);
        } else if i < n2 {
            assert(all[i] == c2[i - n1]);
        } else if i < n3 {
            assert(all[i] == c3[i - n2]);
        } else if i < n4 {
            assert(all[i] == c4[i - n3]);
        } else {
            assert(all[i] == c5[i - n4]);
        }
    }
}


/// Every candidate a rectangle yields is a well-formed record.
proof fn lemma_rect_cands_wf(rc: Rect, r: R3)
    requires
        rect_wf(rc),
    ensures
        forall|i: int| 0 <= i < rect_cands(rc, r).len() ==> crate::hit::rec_wf(
            #[trigger] rect_cands(rc, r)[i]),
{
    let cands = rect_cands(rc, r);
    assert forall|i: int| 0 <= i < cands.len() implies crate::hit::rec_wf(
        #[trigger] cands[i]) by {
        let t = crate::rect::rect_t(rc, r);
        let b = rect_box_model(rc);
        let p = crate::vec3::sv_ray_at(r, t);
        crate::aabb::lemma_point_in_box(b.min.x, b.max.x, r.orig.x, r.dir.x, t, p.x);
        crate::aabb::lemma_point_in_box(b.min.y, b.max.y, r.orig.y, r.dir.y, t, p.y);
        crate::aabb::lemma_point_in_box(b.min.z, b.max.z, r.orig.z, r.dir.z, t, p.z);
    }
}

/// Every candidate a sphere yields is a well-formed record.
proof fn lemma_sphere_cands_wf(s: crate::sphere::S3, r: R3)
    requires
        sphere_wf(s),
    ensures
        forall|i: int| 0 <= i < sphere_cands(s, r).len() ==> crate::hit::rec_wf(
            #[trigger] sphere_cands(s, r)[i]),
{
    let cands = sphere_cands(s, r);
    assert forall|i: int| 0 <= i < cands.len() implies crate::hit::rec_wf(
        #[trigger] cands[i]) by {
        let t = if i == 0 && crate::sphere::sph_accept(s, r, crate::sphere::sph_root1(s, r)) {
            crate::sphere::sph_root1(s, r)
        } else {
            crate::sphere::sph_root2(s, r)
        };
        assert(crate::sphere::sph_accept(s, r, t) && cands[i] == crate::sphere::sph_cand(s, r,
            t));
        let b = sphere_box(s);
        let p = crate::vec3::sv_ray_at(r, t);
        let rad = crate::sphere::sph_rad_abs(s);
        crate::sphere::lemma_axis_normal_pub(s.center.x, rad, r.orig.x, r.dir.x, t, p.x);
        crate::sphere::lemma_axis_normal_pub(s.center.y, rad, r.orig.y, r.dir.y, t, p.y);
        crate::sphere::lemma_axis_normal_pub(s.center.z, rad, r.orig.z, r.dir.z, t, p.z);
    }
}

/// Every candidate of any shape is a well-formed record: bounded position,
/// bounded nonzero normal.
pub proof fn lemma_geo_cands_wf(g: GeometricObject, r: R3)
    requires
        geo_wf(g),
    ensures
        forall|i: int| 0 <= i < geo_cands(g, r).len() ==> crate::hit::rec_wf(
            #[trigger] geo_cands(g, r)[i]),
{
    match g {
        GeometricObject::Sphere(s) => {
            lemma_sphere_cands_wf(s@, r);
        },
        GeometricObject::Rect(rc) => {
            lemma_rect_cands_wf(rc, r);
        },
        GeometricObject::RectBox(b) => {
            lemma_rect_cands_wf(b.xy0, r);
            lemma_rect_cands_wf(b.xy1, r);
            lemma_rect_cands_wf(b.yz0, r);
            lemma_rect_cands_wf(b.yz1, r);
            lemma_rect_cands_wf(b.xz0, r);
            lemma_rect_cands_wf(b.xz1, r);
            let c0 = rect_cands(b.xy0, r);
            let c1 = rect_cands(b.xy1, r);
            let c2 = rect_cands(b.yz0, r);
            let c3 = rect_cands(b.yz1, r);
            let c4 = rect_cands(b.xz0, r);
            let c5 = rect_cands(b.xz1, r);
            let all = c0 + c1 + c2 + c3 + c4 + c5;
            assert forall|i: int| 0 <= i < all.len() implies crate::hit::rec_wf(
                #[trigger] all[i]) by {
                let n0 = c0.len() as int;
                let n1 = n0 + c1.len();
                let n2 = n1 + c2.len();
                let n3 = n2 + c3.len();
                let n4 = n3 + c4.len();
                if i < n0 {
                    assert(all[i] == c0[i]);
                } else if i < n1 {
                    assert(all[i] == c1[i - n0]);
                } else if i < n2 {
                    assert(all[i] == c2[i - n1]);
                } else if i < n3 {
                    assert(all[i] == c3[i - n2]);
                } else if i < n4 {
                    assert(all[i] == c4[i - n3]);
                } else {
                    assert(all[i] == c5[i - n4]);
                }
            }
        },
    }
}

} // verus!

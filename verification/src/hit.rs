//! Hit records and the reference semantics of nearest-hit queries.
//!
//! Every geometric shape is modelled by a sequence of candidate hits along a
//! ray, ordered as the shape's intersection routine examines them.  A query
//! over a window returns the earliest candidate of minimal distance inside
//! the window: the spec function `best_of`.  The lemmas here — window
//! consistency and concatenation — are what make the linear scan and the
//! tree traversal provably agree.

use vstd::prelude::*;

use crate::vec3::{sv_bounded, sv_dot, sv_neg, Point, Ray, R3, V3, Vec3, PROD_LIMIT};

verus! {

/// Mathematical model of a hit: position, outward-flipped normal, distance,
/// texture coordinates and the orientation flag.
pub struct H3 {
    pub point: V3,
    pub normal: V3,
    pub t: int,
    pub front_face: bool,
    pub u: int,
    pub v: int,
}

/// The result of a successful ray-geometry intersection.
#[derive(Clone, Copy, Debug, PartialEq, Eq, Structural)]
pub struct HitRecord {
    pub point: Point,
    pub normal: Vec3,
    pub t: i64,
    pub front_face: bool,
    pub u: i64,
    pub v: i64,
}

impl View for HitRecord {
    type V = H3;

    open spec fn view(&self) -> H3 {
        H3 {
            point: self.point@,
            normal: self.normal@,
            t: self.t as int,
            front_face: self.front_face,
            u: self.u as int,
            v: self.v as int,
        }
    }
}

/// Model of `HitRecord::new`: the normal is flipped to oppose the incoming
/// direction, and the flag records whether it already did.
pub open spec fn h3_new(r: R3, point: V3, normal: V3, t: int, u: int, v: int) -> H3 {
    let ff = sv_dot(r.dir, normal) < 0;
    H3 {
        point,
        normal: if ff { normal } else { sv_neg(normal) },
        t,
        front_face: ff,
        u,
        v,
    }
}

impl HitRecord {
    /// Builds a record, flipping the normal to oppose the incoming ray.
    pub fn new(incoming: &Ray, point: Point, normal: Vec3, t: i64, u: i64, v: i64)
        -> (rec: HitRecord)
        requires
            sv_bounded(incoming@.dir, PROD_LIMIT as int),
            sv_bounded(normal@, PROD_LIMIT as int),
        ensures
            rec@ == h3_new(incoming@, point@, normal@, t as int, u as int, v as int),
    {
        let front_face = incoming.direction.dot(&normal) < 0;
        let normal = if front_face {
            normal
        } else {
            normal.neg()
        };
        HitRecord { point, normal, t, front_face, u, v }
    }
}

/// What every record produced by the geometry satisfies: a position within
/// the ray-origin range, and a bounded, nonzero normal.
pub open spec fn rec_wf(h: H3) -> bool {
    &&& sv_bounded(h.point, PROD_LIMIT as int)
    &&& sv_bounded(h.normal, 2 * crate::fixed::FP_ONE as int)
    &&& h.normal != (V3 { x: 0, y: 0, z: 0 })
}

/// The model of an optional executable record.
pub open spec fn opt_view(res: Option<HitRecord>) -> Option<H3> {
    match res {
        Some(rec) => Some(rec@),
        None => None,
    }
}

/// An optional executable record agrees with an optional model hit.
pub open spec fn opt_hit_matches(res: Option<HitRecord>, m: Option<H3>) -> bool {
    opt_view(res) == m
}

/// The earliest candidate of minimal distance within `[tmin, tmax]`: the
/// reference answer of every nearest-hit query.
pub open spec fn best_of(cands: Seq<H3>, tmin: int, tmax: int) -> Option<H3>
    decreases cands.len(),
{
    if cands.len() == 0 {
        None
    } else {
        let c = cands[0];
        let rest = best_of(cands.drop_first(), tmin, tmax);
        if tmin <= c.t <= tmax {
            match rest {
                None => Some(c),
                Some(h) => if h.t < c.t { Some(h) } else { Some(c) },
            }
        } else {
            rest
        }
    }
}

/// What a `best_of` answer means: `None` exactly when no candidate lies in
/// the window, otherwise a member of minimal distance within the window.
pub proof fn lemma_best_of_props(cands: Seq<H3>, tmin: int, tmax: int)
    ensures
        match best_of(cands, tmin, tmax) {
            None => forall|i: int| 0 <= i < cands.len() ==> !(tmin <= (#[trigger] cands[i]).t
                <= tmax),
            Some(h) => {
                &&& exists|i: int| 0 <= i < cands.len() && cands[i] == h
                &&& tmin <= h.t <= tmax
                &&& forall|i: int| 0 <= i < cands.len() && tmin <= (#[trigger] cands[i]).t
                    <= tmax ==> h.t <= cands[i].t
            },
        },
    decreases cands.len(),
{
    if cands.len() == 0 {
    } else {
        lemma_best_of_props(cands.drop_first(), tmin, tmax);
        let c = cands[0];
        let rest = best_of(cands.drop_first(), tmin, tmax);
        assert(forall|i: int| 1 <= i < cands.len() ==> (#[trigger] cands[i])
            == cands.drop_first()[i - 1]);
        match best_of(cands, tmin, tmax) {
            None => {
            },
            Some(h) => {
                if tmin <= c.t <= tmax {
                    match rest {
                        None => {
                            assert(cands[0] == h);
                        },
                        Some(hr) => {
                            if hr.t < c.t {
                                let i = choose|i: int| 0 <= i < cands.drop_first().len()
                                    && cands.drop_first()[i] == hr;
                                assert(cands[i + 1] == hr);
                            } else {
                                assert(cands[0] == h);
                            }
                        },
                    }
                } else {
                    let i = choose|i: int| 0 <= i < cands.drop_first().len()
                        && cands.drop_first()[i] == h;
                    assert(cands[i + 1] == h);
                }
            },
        }
    }
}

/// Tightening the far end of the window: the answer survives if it is still
/// inside, and disappears — with nothing closer — if it is not.
pub proof fn lemma_best_of_window(cands: Seq<H3>, tmin: int, t1: int, t2: int)
    requires
        t1 <= t2,
    ensures
        best_of(cands, tmin, t2) is None ==> best_of(cands, tmin, t1) is None,
        match best_of(cands, tmin, t2) {
            Some(h) => if h.t <= t1 {
                best_of(cands, tmin, t1) == Some(h)
            } else {
                best_of(cands, tmin, t1) is None
            },
            None => true,
        },
    decreases cands.len(),
{
    if cands.len() == 0 {
    } else {
        lemma_best_of_window(cands.drop_first(), tmin, t1, t2);
        lemma_best_of_props(cands.drop_first(), tmin, t1);
        lemma_best_of_props(cands.drop_first(), tmin, t2);
    }
}

/// `best_of` over a single candidate.
pub proof fn lemma_best_of_singleton(c: H3, tmin: int, tmax: int)
    ensures
        best_of(seq![c], tmin, tmax) == if tmin <= c.t <= tmax {
            Some(c)
        } else {
            None::<H3>
        },
{
    let o = seq![c];
    assert(o.len() == 1);
    assert(o[0] == c);
    assert(o.drop_first() =~= Seq::<H3>::empty());
    assert(best_of(Seq::<H3>::empty(), tmin, tmax) is None);
    assert(best_of(o.drop_first(), tmin, tmax) is None);
}

/// Taking the better of two answers, the left one on ties.
pub open spec fn merge_hits(a: Option<H3>, b: Option<H3>) -> Option<H3> {
    match (a, b) {
        (None, b) => b,
        (a, None) => a,
        (Some(x), Some(y)) => if y.t < x.t { Some(y) } else { Some(x) },
    }
}

/// The answer over concatenated candidates is the merge of the answers.
pub proof fn lemma_best_of_concat(s1: Seq<H3>, s2: Seq<H3>, tmin: int, tmax: int)
    ensures
        best_of(s1 + s2, tmin, tmax) == merge_hits(best_of(s1, tmin, tmax),
            best_of(s2, tmin, tmax)),
    decreases s1.len(),
{
    if s1.len() == 0 {
        assert(s1 + s2 =~= s2);
    } else {
        lemma_best_of_concat(s1.drop_first(), s2, tmin, tmax);
        assert((s1 + s2).drop_first() =~= s1.drop_first() + s2);
        assert((s1 + s2)[0] == s1[0]);
    }
}

} // verus!

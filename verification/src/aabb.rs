//! Axis-aligned bounding boxes and the slab ray-box test.
//!
//! Entry and exit distances of a ray through a slab are true rationals
//! (`(bound - origin) * FP_ONE / direction`); the test compares them by exact
//! cross-multiplication, so the pruning decisions of the tree traversal are
//! exact and the containment lemmas below are genuine theorems.

use vstd::prelude::*;

use crate::fixed::{max_i64, min_i64, FP_ONE};
use crate::vec3::{
    mul_bound, sv_bounded, Point, Ray, Vec3, R3, V3,
};

verus! {

/// Mathematical model of a box: two corner vectors.
pub struct A3 {
    pub min: V3,
    pub max: V3,
}

/// A well-formed box has its corners ordered on every axis.
pub open spec fn sa_wf(b: A3) -> bool {
    &&& b.min.x <= b.max.x
    &&& b.min.y <= b.max.y
    &&& b.min.z <= b.max.z
}

/// Both corners within `l` quanta of the origin.
pub open spec fn sa_bounded(b: A3, l: int) -> bool {
    sv_bounded(b.min, l) && sv_bounded(b.max, l)
}

/// Componentwise minimum.
pub open spec fn sv_cmin(a: V3, b: V3) -> V3 {
    V3 {
        x: if a.x <= b.x { a.x } else { b.x },
        y: if a.y <= b.y { a.y } else { b.y },
        z: if a.z <= b.z { a.z } else { b.z },
    }
}

/// Componentwise maximum.
pub open spec fn sv_cmax(a: V3, b: V3) -> V3 {
    V3 {
        x: if a.x >= b.x { a.x } else { b.x },
        y: if a.y >= b.y { a.y } else { b.y },
        z: if a.z >= b.z { a.z } else { b.z },
    }
}

/// The smallest box containing both arguments.
pub open spec fn sa_union(a: A3, b: A3) -> A3 {
    A3 { min: sv_cmin(a.min, b.min), max: sv_cmax(a.max, b.max) }
}

/// `outer` contains `inner` on every axis.
pub open spec fn sa_contains(outer: A3, inner: A3) -> bool {
    &&& outer.min.x <= inner.min.x && inner.max.x <= outer.max.x
    &&& outer.min.y <= inner.min.y && inner.max.y <= outer.max.y
    &&& outer.min.z <= inner.min.z && inner.max.z <= outer.max.z
}

/// The volume proxy used as the split-quality score: the raw product of the
/// three edge lengths (at scale `FP_ONE` cubed).
pub open spec fn sa_area(b: A3) -> int {
    (b.max.x - b.min.x) * (b.max.y - b.min.y) * (b.max.z - b.min.z)
}

/// Union is commutative.
pub proof fn lemma_union_comm(a: A3, b: A3)
    ensures
        sa_union(a, b) == sa_union(b, a),
{
}

/// Union is idempotent.
pub proof fn lemma_union_self(a: A3)
    ensures
        sa_union(a, a) == a,
{
}

/// Union with a contained box is absorbed.
pub proof fn lemma_union_absorb(a: A3, b: A3)
    requires
        sa_contains(a, b),
    ensures
        sa_union(a, b) == a,
{
}

/// The union contains both arguments.
pub proof fn lemma_union_contains(a: A3, b: A3)
    ensures
        sa_contains(sa_union(a, b), a),
        sa_contains(sa_union(a, b), b),
{
}

/// Containment is transitive.
pub proof fn lemma_contains_trans(a: A3, b: A3, c: A3)
    requires
        sa_contains(a, b),
        sa_contains(b, c),
    ensures
        sa_contains(a, c),
{
}

// ---------------------------------------------------------------------------
// Exact rational parametric distances.
// ---------------------------------------------------------------------------

/// A rational parametric distance `num / den` with `den >= 1`.
pub struct QVal {
    pub num: int,
    pub den: int,
}

pub open spec fn q_wf(q: QVal) -> bool {
    q.den >= 1
}

/// The rational equal to the fixed-point scalar `t`.
pub open spec fn q_of(t: int) -> QVal {
    QVal { num: t, den: 1 }
}

pub open spec fn q_le(a: QVal, b: QVal) -> bool {
    a.num * b.den <= b.num * a.den
}

pub open spec fn q_lt(a: QVal, b: QVal) -> bool {
    a.num * b.den < b.num * a.den
}

pub open spec fn q_max(a: QVal, b: QVal) -> QVal {
    if q_le(a, b) { b } else { a }
}

pub open spec fn q_min(a: QVal, b: QVal) -> QVal {
    if q_le(a, b) { a } else { b }
}

pub proof fn lemma_q_le_trans(a: QVal, b: QVal, c: QVal)
    requires
        q_wf(a) && q_wf(b) && q_wf(c),
        q_le(a, b),
        q_le(b, c),
    ensures
        q_le(a, c),
{
    assert(a.num * c.den <= c.num * a.den) by (nonlinear_arith)
        requires
            a.den >= 1 && b.den >= 1 && c.den >= 1,
            a.num * b.den <= b.num * a.den,
            b.num * c.den <= c.num * b.den,
    ;
}

pub proof fn lemma_q_le_lt_trans(a: QVal, b: QVal, c: QVal)
    requires
        q_wf(a) && q_wf(b) && q_wf(c),
        q_le(a, b),
        q_lt(b, c),
    ensures
        q_lt(a, c),
{
    assert(a.num * c.den < c.num * a.den) by (nonlinear_arith)
        requires
            a.den >= 1 && b.den >= 1 && c.den >= 1,
            a.num * b.den <= b.num * a.den,
            b.num * c.den < c.num * b.den,
    ;
}

pub proof fn lemma_q_lt_le_trans(a: QVal, b: QVal, c: QVal)
    requires
        q_wf(a) && q_wf(b) && q_wf(c),
        q_lt(a, b),
        q_le(b, c),
    ensures
        q_lt(a, c),
{
    assert(a.num * c.den < c.num * a.den) by (nonlinear_arith)
        requires
            a.den >= 1 && b.den >= 1 && c.den >= 1,
            a.num * b.den < b.num * a.den,
            b.num * c.den <= c.num * b.den,
    ;
}

pub proof fn lemma_q_lt_trans(a: QVal, b: QVal, c: QVal)
    requires
        q_wf(a) && q_wf(b) && q_wf(c),
        q_lt(a, b),
        q_lt(b, c),
    ensures
        q_lt(a, c),
{
    lemma_q_lt_le_trans(a, b, c);
}

// ---------------------------------------------------------------------------
// The slab predicate.
// ---------------------------------------------------------------------------

/// Entry distance of the ray into the slab of one axis (`d != 0`), with the
/// denominator normalized positive.
pub open spec fn axis_t0(mn: int, mx: int, o: int, d: int) -> QVal {
    if d > 0 {
        QVal { num: (mn - o) * (FP_ONE as int), den: d }
    } else {
        QVal { num: (o - mx) * (FP_ONE as int), den: -d }
    }
}

/// Exit distance of the ray out of the slab of one axis (`d != 0`).
pub open spec fn axis_t1(mn: int, mx: int, o: int, d: int) -> QVal {
    if d > 0 {
        QVal { num: (mx - o) * (FP_ONE as int), den: d }
    } else {
        QVal { num: (o - mn) * (FP_ONE as int), den: -d }
    }
}

/// Running state of the slab test: still alive, and the narrowed window.
pub struct SlabState {
    pub ok: bool,
    pub lo: QVal,
    pub hi: QVal,
}

/// Narrowing the window by one axis; a dead state stays dead.
pub open spec fn slab_step(st: SlabState, mn: int, mx: int, o: int, d: int) -> SlabState {
    if !st.ok {
        st
    } else if d == 0 {
        SlabState { ok: mn <= o && o <= mx, lo: st.lo, hi: st.hi }
    } else {
        let lo = q_max(st.lo, axis_t0(mn, mx, o, d));
        let hi = q_min(st.hi, axis_t1(mn, mx, o, d));
        SlabState { ok: q_lt(lo, hi), lo, hi }
    }
}

/// The exact slab test: the ray meets the box with positive overlap within
/// `[tmin, tmax]`; an axis with a zero direction component only requires the
/// origin to lie inside that slab.
pub open spec fn slab_hit(b: A3, r: R3, tmin: int, tmax: int) -> bool {
    let s0 = SlabState { ok: true, lo: q_of(tmin), hi: q_of(tmax) };
    let s1 = slab_step(s0, b.min.x, b.max.x, r.orig.x, r.dir.x);
    let s2 = slab_step(s1, b.min.y, b.max.y, r.orig.y, r.dir.y);
    let s3 = slab_step(s2, b.min.z, b.max.z, r.orig.z, r.dir.z);
    s3.ok
}

/// The position at distance `t` lies strictly inside the slab of one axis
/// (inclusively where the ray runs parallel to it).
pub open spec fn inside_axis(mn: int, mx: int, o: int, d: int, t: int) -> bool {
    if d == 0 {
        mn <= o && o <= mx
    } else {
        mn * (FP_ONE as int) < o * (FP_ONE as int) + d * t
            && o * (FP_ONE as int) + d * t < mx * (FP_ONE as int)
    }
}

/// The position at distance `t` lies strictly inside the box.
pub open spec fn strictly_inside(b: A3, r: R3, t: int) -> bool {
    &&& inside_axis(b.min.x, b.max.x, r.orig.x, r.dir.x, t)
    &&& inside_axis(b.min.y, b.max.y, r.orig.y, r.dir.y, t)
    &&& inside_axis(b.min.z, b.max.z, r.orig.z, r.dir.z, t)
}

/// Invariant carried across axes: the window still straddles `t`, strictly
/// unless an endpoint is still the original query bound.
spec fn slab_inv(st: SlabState, t: int, tmin: int, tmax: int) -> bool {
    &&& q_wf(st.lo) && q_wf(st.hi)
    &&& q_le(st.lo, q_of(t))
    &&& q_lt(st.lo, q_of(t)) || st.lo == q_of(tmin)
    &&& q_le(q_of(t), st.hi)
    &&& q_lt(q_of(t), st.hi) || st.hi == q_of(tmax)
}

proof fn lemma_axis_inside_step(st: SlabState, mn: int, mx: int, o: int, d: int, t: int,
    tmin: int, tmax: int)
    requires
        st.ok,
        slab_inv(st, t, tmin, tmax),
        inside_axis(mn, mx, o, d, t),
        tmin <= t <= tmax,
        tmin < tmax,
    ensures
        slab_step(st, mn, mx, o, d).ok,
        slab_inv(slab_step(st, mn, mx, o, d), t, tmin, tmax),
{
    if d == 0 {
        return ;
    }
    let t0 = axis_t0(mn, mx, o, d);
    let t1 = axis_t1(mn, mx, o, d);
    assert(q_wf(t0) && q_wf(t1));
    assert(q_lt(t0, q_of(t)) && q_lt(q_of(t), t1)) by (nonlinear_arith)
        requires
            d != 0,
            mn * (FP_ONE as int) < o * (FP_ONE as int) + d * t,
            o * (FP_ONE as int) + d * t < mx * (FP_ONE as int),
            t0 == axis_t0(mn, mx, o, d),
            t1 == axis_t1(mn, mx, o, d),
    ;
    let lo = q_max(st.lo, t0);
    let hi = q_min(st.hi, t1);
    assert(q_le(lo, q_of(t)));
    assert(q_le(q_of(t), hi));
    assert(q_lt(lo, q_of(t)) || lo == q_of(tmin));
    assert(q_lt(q_of(t), hi) || hi == q_of(tmax));
    if q_lt(lo, q_of(t)) {
        if q_lt(q_of(t), hi) {
            lemma_q_lt_trans(lo, q_of(t), hi);
        } else {
            lemma_q_lt_le_trans(lo, q_of(t), hi);
        }
    } else {
        if q_lt(q_of(t), hi) {
            lemma_q_le_lt_trans(lo, q_of(t), hi);
        } else {
            assert(lo == q_of(tmin) && hi == q_of(tmax));
            assert(q_lt(lo, hi));
        }
    }
}

/// A parametric distance strictly inside the box and inside a nondegenerate
/// query window makes the slab test succeed.
pub proof fn lemma_inside_implies_slab(b: A3, r: R3, tmin: int, tmax: int, t: int)
    requires
        strictly_inside(b, r, t),
        tmin <= t <= tmax,
        tmin < tmax,
    ensures
        slab_hit(b, r, tmin, tmax),
{
    let s0 = SlabState { ok: true, lo: q_of(tmin), hi: q_of(tmax) };
    assert(slab_inv(s0, t, tmin, tmax));
    let s1 = slab_step(s0, b.min.x, b.max.x, r.orig.x, r.dir.x);
    lemma_axis_inside_step(s0, b.min.x, b.max.x, r.orig.x, r.dir.x, t, tmin, tmax);
    let s2 = slab_step(s1, b.min.y, b.max.y, r.orig.y, r.dir.y);
    lemma_axis_inside_step(s1, b.min.y, b.max.y, r.orig.y, r.dir.y, t, tmin, tmax);
    lemma_axis_inside_step(s2, b.min.z, b.max.z, r.orig.z, r.dir.z, t, tmin, tmax);
}

proof fn lemma_q_max_mono(a1: QVal, b1: QVal, a2: QVal, b2: QVal)
    requires
        q_wf(a1) && q_wf(b1) && q_wf(a2) && q_wf(b2),
        q_le(a2, a1),
        q_le(b2, b1),
    ensures
        q_le(q_max(a2, b2), q_max(a1, b1)),
{
    let m1 = q_max(a1, b1);
    let m2 = q_max(a2, b2);
    assert(q_le(a1, m1) || q_le(b1, m1));
    assert(q_le(a1, m1) && q_le(b1, m1)) by {
        if q_le(a1, b1) {
        } else {
            assert(q_le(b1, a1));
        }
    }
    if m2 == a2 {
        lemma_q_le_trans(a2, a1, m1);
    } else {
        lemma_q_le_trans(b2, b1, m1);
    }
}

proof fn lemma_q_min_mono(a1: QVal, b1: QVal, a2: QVal, b2: QVal)
    requires
        q_wf(a1) && q_wf(b1) && q_wf(a2) && q_wf(b2),
        q_le(a1, a2),
        q_le(b1, b2),
    ensures
        q_le(q_min(a1, b1), q_min(a2, b2)),
{
    let m1 = q_min(a1, b1);
    let m2 = q_min(a2, b2);
    assert(q_le(m1, a1) && q_le(m1, b1)) by {
        if q_le(a1, b1) {
        } else {
            assert(q_le(b1, a1));
        }
    }
    if m2 == a2 {
        lemma_q_le_trans(m1, a1, a2);
    } else {
        lemma_q_le_trans(m1, b1, b2);
    }
}

proof fn lemma_axis_mono_step(s1: SlabState, s2: SlabState, mn1: int, mx1: int, mn2: int,
    mx2: int, o: int, d: int)
    requires
        q_wf(s1.lo) && q_wf(s1.hi) && q_wf(s2.lo) && q_wf(s2.hi),
        s1.ok && s2.ok,
        mn2 <= mn1 && mx1 <= mx2,
        q_le(s2.lo, s1.lo),
        q_le(s1.hi, s2.hi),
        slab_step(s1, mn1, mx1, o, d).ok,
    ensures
        slab_step(s2, mn2, mx2, o, d).ok,
        q_wf(slab_step(s1, mn1, mx1, o, d).lo),
        q_wf(slab_step(s1, mn1, mx1, o, d).hi),
        q_wf(slab_step(s2, mn2, mx2, o, d).lo),
        q_wf(slab_step(s2, mn2, mx2, o, d).hi),
        q_le(slab_step(s2, mn2, mx2, o, d).lo, slab_step(s1, mn1, mx1, o, d).lo),
        q_le(slab_step(s1, mn1, mx1, o, d).hi, slab_step(s2, mn2, mx2, o, d).hi),
{
    if d == 0 {
        return ;
    }
    let t0a = axis_t0(mn1, mx1, o, d);
    let t1a = axis_t1(mn1, mx1, o, d);
    let t0b = axis_t0(mn2, mx2, o, d);
    let t1b = axis_t1(mn2, mx2, o, d);
    assert(q_le(t0b, t0a) && q_le(t1a, t1b)) by (nonlinear_arith)
        requires
            d != 0,
            mn2 <= mn1 && mx1 <= mx2,
            t0a == axis_t0(mn1, mx1, o, d),
            t1a == axis_t1(mn1, mx1, o, d),
            t0b == axis_t0(mn2, mx2, o, d),
            t1b == axis_t1(mn2, mx2, o, d),
    ;
    lemma_q_max_mono(s1.lo, t0a, s2.lo, t0b);
    lemma_q_min_mono(s1.hi, t1a, s2.hi, t1b);
    let lo1 = q_max(s1.lo, t0a);
    let hi1 = q_min(s1.hi, t1a);
    let lo2 = q_max(s2.lo, t0b);
    let hi2 = q_min(s2.hi, t1b);
    lemma_q_le_lt_trans(lo2, lo1, hi1);
    lemma_q_lt_le_trans(lo2, hi1, hi2);
}

/// A slab hit survives widening the box and the far end of the window.
pub proof fn lemma_slab_monotone(b1: A3, b2: A3, r: R3, tmin: int, tmax1: int, tmax2: int)
    requires
        sa_contains(b2, b1),
        tmax1 <= tmax2,
        slab_hit(b1, r, tmin, tmax1),
    ensures
        slab_hit(b2, r, tmin, tmax2),
{
    let s0a = SlabState { ok: true, lo: q_of(tmin), hi: q_of(tmax1) };
    let s0b = SlabState { ok: true, lo: q_of(tmin), hi: q_of(tmax2) };
    let s1a = slab_step(s0a, b1.min.x, b1.max.x, r.orig.x, r.dir.x);
    let s2a = slab_step(s1a, b1.min.y, b1.max.y, r.orig.y, r.dir.y);
    let s3a = slab_step(s2a, b1.min.z, b1.max.z, r.orig.z, r.dir.z);
    assert(s3a.ok);
    assert(s2a.ok && s1a.ok && s0a.ok) by {
        if !s1a.ok {
            assert(s2a == s1a && s3a == s2a);
        } else if !s2a.ok {
            assert(s3a == s2a);
        }
    }
    lemma_axis_mono_step(s0a, s0b, b1.min.x, b1.max.x, b2.min.x, b2.max.x, r.orig.x, r.dir.x);
    let s1b = slab_step(s0b, b2.min.x, b2.max.x, r.orig.x, r.dir.x);
    lemma_axis_mono_step(s1a, s1b, b1.min.y, b1.max.y, b2.min.y, b2.max.y, r.orig.y, r.dir.y);
    let s2b = slab_step(s1b, b2.min.y, b2.max.y, r.orig.y, r.dir.y);
    lemma_axis_mono_step(s2a, s2b, b1.min.z, b1.max.z, b2.min.z, b2.max.z, r.orig.z, r.dir.z);
}

/// Padding, in quanta, added around every bounding box, so that accepted
/// hits lie strictly inside the box of their object.
pub const BOX_PAD: i64 = 64;

/// The exact position numerator at distance `t` lies strictly inside the box
/// on every axis (positions carry scale `FP_ONE` squared).
pub open spec fn pos_strictly_in(b: A3, r: R3, t: int) -> bool {
    &&& b.min.x * (FP_ONE as int) < r.orig.x * (FP_ONE as int) + r.dir.x * t
        < b.max.x * (FP_ONE as int)
    &&& b.min.y * (FP_ONE as int) < r.orig.y * (FP_ONE as int) + r.dir.y * t
        < b.max.y * (FP_ONE as int)
    &&& b.min.z * (FP_ONE as int) < r.orig.z * (FP_ONE as int) + r.dir.z * t
        < b.max.z * (FP_ONE as int)
}

/// Strict numerator containment gives the slab-level containment, axis by
/// axis (for a parallel axis it degrades to the inclusive membership).
pub proof fn lemma_pos_strictly_inside(b: A3, r: R3, t: int)
    requires
        pos_strictly_in(b, r, t),
    ensures
        strictly_inside(b, r, t),
{
    if r.dir.x == 0 {
        assert(b.min.x * (FP_ONE as int) < r.orig.x * (FP_ONE as int) < b.max.x
            * (FP_ONE as int));
    }
    if r.dir.y == 0 {
        assert(b.min.y * (FP_ONE as int) < r.orig.y * (FP_ONE as int) < b.max.y
            * (FP_ONE as int));
    }
    if r.dir.z == 0 {
        assert(b.min.z * (FP_ONE as int) < r.orig.z * (FP_ONE as int) < b.max.z
            * (FP_ONE as int));
    }
}

/// A quantized ray position whose exact numerator lies inside a slab stays
/// within one quantum of the slab on that axis.
pub proof fn lemma_point_in_box(mn: int, mx: int, o: int, d: int, t: int, pa: int)
    requires
        mn * (FP_ONE as int) < o * (FP_ONE as int) + d * t,
        o * (FP_ONE as int) + d * t < mx * (FP_ONE as int),
        pa == o + crate::fixed::floor_div(d * t, FP_ONE as int),
    ensures
        mn - 1 <= pa <= mx,
{
    let f = FP_ONE as int;
    vstd::arithmetic::div_mod::lemma_fundamental_div_mod(d * t, f);
    vstd::arithmetic::div_mod::lemma_mod_bound(d * t, f);
    assert(pa * f <= o * f + d * t < pa * f + f) by (nonlinear_arith)
        requires
            pa == o + (d * t) / f,
            d * t == f * ((d * t) / f) + (d * t) % f,
            0 <= (d * t) % f < f,
            f >= 1,
    ;
    assert(mn - 1 <= pa <= mx) by (nonlinear_arith)
        requires
            mn * f < pa * f + f,
            pa * f < mx * f,
            f >= 1,
    ;
}

/// Strict numerator containment survives widening the box.
pub proof fn lemma_pos_in_mono(b1: A3, b2: A3, r: R3, t: int)
    requires
        sa_contains(b2, b1),
        pos_strictly_in(b1, r, t),
    ensures
        pos_strictly_in(b2, r, t),
{
}

// ---------------------------------------------------------------------------
// The executable box.
// ---------------------------------------------------------------------------

/// An axis-aligned box; `min` is componentwise at most `max`.
#[derive(Clone, Copy, Debug, PartialEq, Eq, Structural)]
pub struct Aabb {
    pub min: Point,
    pub max: Point,
}

impl View for Aabb {
    type V = A3;

    open spec fn view(&self) -> A3 {
        A3 { min: self.min@, max: self.max@ }
    }
}

/// The smallest box containing both arguments.
pub fn surrounding_box(lhs: &Aabb, rhs: &Aabb) -> (r: Aabb)
    requires
        sa_bounded(lhs@, crate::vec3::VEC_LIMIT as int),
        sa_bounded(rhs@, crate::vec3::VEC_LIMIT as int),
    ensures
        r@ == sa_union(lhs@, rhs@),
{
    let small = Vec3::new(
        min_i64(lhs.min.0.x, rhs.min.0.x),
        min_i64(lhs.min.0.y, rhs.min.0.y),
        min_i64(lhs.min.0.z, rhs.min.0.z),
    );
    let large = Vec3::new(
        max_i64(lhs.max.0.x, rhs.max.0.x),
        max_i64(lhs.max.0.y, rhs.max.0.y),
        max_i64(lhs.max.0.z, rhs.max.0.z),
    );
    Aabb { min: Point(small), max: Point(large) }
}

/// The union of every box of a list, `None` for an empty list.
pub fn bounding(boxes: &Vec<Aabb>) -> (r: Option<Aabb>)
    requires
        forall|i: int| 0 <= i < boxes@.len() ==> sa_bounded(#[trigger] boxes@[i]@,
            crate::vec3::VEC_LIMIT as int),
    ensures
        boxes@.len() == 0 <==> r is None,
        r is Some ==> forall|i: int| 0 <= i < boxes@.len() ==> sa_contains(r->Some_0@,
            #[trigger] boxes@[i]@),
{
    let mut out: Option<Aabb> = None;
    let mut k: usize = 0;
    while k < boxes.len()
        invariant
            k <= boxes@.len(),
            forall|i: int| 0 <= i < boxes@.len() ==> sa_bounded(#[trigger] boxes@[i]@,
                crate::vec3::VEC_LIMIT as int),
            out is Some <==> k > 0,
            out is Some ==> sa_bounded(out->Some_0@, crate::vec3::VEC_LIMIT as int),
            out is Some ==> forall|i: int| 0 <= i < k ==> sa_contains(out->Some_0@,
                #[trigger] boxes@[i]@),
        decreases boxes@.len() - k,
    {
        let b = boxes[k];
        out = match out {
            Some(p) => {
                let u = surrounding_box(&p, &b);
                proof {
                    lemma_union_contains(p@, b@);
                    assert forall|i: int| 0 <= i < k implies sa_contains(u@,
                        #[trigger] boxes@[i]@) by {
                        lemma_contains_trans(u@, p@, boxes@[i]@);
                    }
                }
                Some(u)
            },
            None => Some(b),
        };
        k = k + 1;
    }
    out
}

impl Aabb {
    /// The split-quality score of this box: the product of its edge lengths.
    pub fn area(&self) -> (r: i128)
        requires
            sa_bounded(self@, 4 * crate::vec3::PROD_LIMIT as int),
        ensures
            r == sa_area(self@),
    {
        let dx: i128 = (self.max.0.x as i128) - (self.min.0.x as i128);
        let dy: i128 = (self.max.0.y as i128) - (self.min.0.y as i128);
        let dz: i128 = (self.max.0.z as i128) - (self.min.0.z as i128);
        proof {
            let l: int = 8 * crate::vec3::PROD_LIMIT as int;
            mul_bound(dx as int, dy as int, l, l);
            mul_bound(dx as int * dy as int, dz as int, l * l, l);
        }
        dx * dy * dz
    }

    /// The exact slab test against the window `[t_min, t_max]`.
    pub fn hit2(&self, r: &Ray, t_min: i64, t_max: i64) -> (res: bool)
        requires
            sa_bounded(self@, crate::vec3::VEC_LIMIT as int),
            sv_bounded(r@.orig, crate::vec3::VEC_LIMIT as int),
            sv_bounded(r@.dir, crate::vec3::VEC_LIMIT as int),
            -(crate::vec3::VEC_LIMIT as int) <= t_min <= crate::vec3::VEC_LIMIT as int,
            -(crate::vec3::VEC_LIMIT as int) <= t_max <= crate::vec3::VEC_LIMIT as int,
        ensures
            res == slab_hit(self@, r@, t_min as int, t_max as int),
    {
        let st = SlabRun {
            ok: true,
            lo_num: t_min as i128,
            lo_den: 1,
            hi_num: t_max as i128,
            hi_den: 1,
        };
        let st = slab_axis(st, self.min.0.x, self.max.0.x, r.orig.0.x, r.direction.x);
        let st = slab_axis(st, self.min.0.y, self.max.0.y, r.orig.0.y, r.direction.y);
        let st = slab_axis(st, self.min.0.z, self.max.0.z, r.orig.0.z, r.direction.z);
        st.ok
    }
}

/// Executable counterpart of `SlabState`.
struct SlabRun {
    ok: bool,
    lo_num: i128,
    lo_den: i128,
    hi_num: i128,
    hi_den: i128,
}

impl View for SlabRun {
    type V = SlabState;

    closed spec fn view(&self) -> SlabState {
        SlabState {
            ok: self.ok,
            lo: QVal { num: self.lo_num as int, den: self.lo_den as int },
            hi: QVal { num: self.hi_num as int, den: self.hi_den as int },
        }
    }
}

/// Magnitude bound on the numerators the slab test can produce.
spec fn run_bounded(st: SlabRun) -> bool {
    let nl = 2 * (crate::vec3::VEC_LIMIT as int) * (FP_ONE as int);
    &&& -nl <= st.lo_num <= nl
    &&& 1 <= st.lo_den <= crate::vec3::VEC_LIMIT as int
    &&& -nl <= st.hi_num <= nl
    &&& 1 <= st.hi_den <= crate::vec3::VEC_LIMIT as int
}

/// One axis of the executable slab test.
fn slab_axis(st: SlabRun, mn: i64, mx: i64, o: i64, d: i64) -> (r: SlabRun)
    requires
        run_bounded(st),
        -(crate::vec3::VEC_LIMIT as int) <= mn <= crate::vec3::VEC_LIMIT as int,
        -(crate::vec3::VEC_LIMIT as int) <= mx <= crate::vec3::VEC_LIMIT as int,
        -(crate::vec3::VEC_LIMIT as int) <= o <= crate::vec3::VEC_LIMIT as int,
        -(crate::vec3::VEC_LIMIT as int) <= d <= crate::vec3::VEC_LIMIT as int,
    ensures
        r@ == slab_step(st@, mn as int, mx as int, o as int, d as int),
        run_bounded(r),
{
    if !st.ok {
        return st;
    }
    if d == 0 {
        let ok = mn <= o && o <= mx;
        return SlabRun { ok, ..st };
    }
    proof {
        let l = crate::vec3::VEC_LIMIT as int;
        mul_bound((mn as int) - (o as int), FP_ONE as int, 2 * l, FP_ONE as int);
        mul_bound((mx as int) - (o as int), FP_ONE as int, 2 * l, FP_ONE as int);
        mul_bound((o as int) - (mn as int), FP_ONE as int, 2 * l, FP_ONE as int);
        mul_bound((o as int) - (mx as int), FP_ONE as int, 2 * l, FP_ONE as int);
    }
    let (t0n, t1n, tden): (i128, i128, i128) = if d > 0 {
        (
            ((mn as i128) - (o as i128)) * (FP_ONE as i128),
            ((mx as i128) - (o as i128)) * (FP_ONE as i128),
            d as i128,
        )
    } else {
        (
            ((o as i128) - (mx as i128)) * (FP_ONE as i128),
            ((o as i128) - (mn as i128)) * (FP_ONE as i128),
            -(d as i128),
        )
    };
    proof {
        assert(t0n == axis_t0(mn as int, mx as int, o as int, d as int).num);
        assert(t1n == axis_t1(mn as int, mx as int, o as int, d as int).num);
        assert(tden == axis_t0(mn as int, mx as int, o as int, d as int).den);
        assert(tden == axis_t1(mn as int, mx as int, o as int, d as int).den);
    }
    let (lo_num, lo_den): (i128, i128) = if q_le_exec(st.lo_num, st.lo_den, t0n, tden) {
        (t0n, tden)
    } else {
        (st.lo_num, st.lo_den)
    };
    let (hi_num, hi_den): (i128, i128) = if q_le_exec(st.hi_num, st.hi_den, t1n, tden) {
        (st.hi_num, st.hi_den)
    } else {
        (t1n, tden)
    };
    let ok = q_lt_exec(lo_num, lo_den, hi_num, hi_den);
    SlabRun { ok, lo_num, lo_den, hi_num, hi_den }
}

/// Exact comparison of two rationals with positive denominators.
fn q_le_exec(an: i128, ad: i128, bn: i128, bd: i128) -> (r: bool)
    requires
        1 <= ad <= crate::vec3::VEC_LIMIT as int,
        1 <= bd <= crate::vec3::VEC_LIMIT as int,
        -(2 * (crate::vec3::VEC_LIMIT as int) * (FP_ONE as int)) <= an
            <= 2 * (crate::vec3::VEC_LIMIT as int) * (FP_ONE as int),
        -(2 * (crate::vec3::VEC_LIMIT as int) * (FP_ONE as int)) <= bn
            <= 2 * (crate::vec3::VEC_LIMIT as int) * (FP_ONE as int),
    ensures
        r == q_le(QVal { num: an as int, den: ad as int }, QVal { num: bn as int, den: bd as int }),
{
    proof {
        let nl = 2 * (crate::vec3::VEC_LIMIT as int) * (FP_ONE as int);
        mul_bound(an as int, bd as int, nl, crate::vec3::VEC_LIMIT as int);
        mul_bound(bn as int, ad as int, nl, crate::vec3::VEC_LIMIT as int);
    }
    an * bd <= bn * ad
}

/// Exact strict comparison of two rationals with positive denominators.
fn q_lt_exec(an: i128, ad: i128, bn: i128, bd: i128) -> (r: bool)
    requires
        1 <= ad <= crate::vec3::VEC_LIMIT as int,
        1 <= bd <= crate::vec3::VEC_LIMIT as int,
        -(2 * (crate::vec3::VEC_LIMIT as int) * (FP_ONE as int)) <= an
            <= 2 * (crate::vec3::VEC_LIMIT as int) * (FP_ONE as int),
        -(2 * (crate::vec3::VEC_LIMIT as int) * (FP_ONE as int)) <= bn
            <= 2 * (crate::vec3::VEC_LIMIT as int) * (FP_ONE as int),
    ensures
        r == q_lt(QVal { num: an as int, den: ad as int }, QVal { num: bn as int, den: bd as int }),
{
    proof {
        let nl = 2 * (crate::vec3::VEC_LIMIT as int) * (FP_ONE as int);
        mul_bound(an as int, bd as int, nl, crate::vec3::VEC_LIMIT as int);
        mul_bound(bn as int, ad as int, nl, crate::vec3::VEC_LIMIT as int);
    }
    an * bd < bn * ad
}

} // verus!

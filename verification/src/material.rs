//! Materials: how surfaces scatter and emit light.
//!
//! Dispatch is over a closed sum type.  Scattering consumes randomness, so
//! the contracts state what holds of every outcome — and become exact where
//! the randomness provably plays no part: a fuzzless metal is a pure mirror,
//! and a dielectric between identical media passes a normal-incidence ray
//! through unchanged.

use vstd::prelude::*;

use crate::fixed::{div_floor_i128, floor_div, isqrt_u128, FP_ONE};
use crate::hit::{rec_wf, HitRecord};
use crate::rng::RngSource;
use crate::texture::{tex_bounded, tex_value, SceneTexture};
use crate::vec3::{
    mul_bound, sv_add, sv_bounded, sv_dot, sv_neg, sv_reflect, sv_unit, sv_zero, Color,
    Point, Ray, Vec3, V3, PROD_LIMIT,
};

verus! {

/// A scattering result: the outgoing ray and the color attenuation.
pub struct Scatter {
    pub direction: Ray,
    pub attenuation: Color,
}

/// Diffuse scattering with a texture-sampled albedo.
pub struct Lambertian {
    pub albedo: SceneTexture,
}

impl Lambertian {
    pub fn new(texture: SceneTexture) -> (r: Lambertian)
        ensures
            r.albedo == texture,
    {
        Lambertian { albedo: texture }
    }
}

/// Specular reflection with a fuzz radius.
pub struct Metal {
    pub albedo: Color,
    pub fuzz: i64,
}

impl Metal {
    /// A metal; the fuzz radius defaults to zero and is clamped into
    /// `[0, FP_ONE]`.
    pub fn new(albedo: Color, fuzz: Option<i64>) -> (r: Metal)
        ensures
            r.albedo == albedo,
            r.fuzz == metal_fuzz(fuzz),
            0 <= r.fuzz <= FP_ONE as int,
            fuzz == Some(0i64) || fuzz is None ==> r.fuzz == 0,
    {
        let mut f: i64 = match fuzz {
            Some(f) => f,
            None => 0,
        };
        if f > FP_ONE {
            f = FP_ONE;
        }
        if f < 0 {
            f = 0;
        }
        Metal { albedo, fuzz: f }
    }
}

/// The fuzz radius clamped into `[0, FP_ONE]`.
pub open spec fn metal_fuzz(fuzz: Option<i64>) -> int {
    let f = match fuzz {
        Some(f) => f as int,
        None => 0,
    };
    if f > FP_ONE as int {
        FP_ONE as int
    } else if f < 0 {
        0
    } else {
        f
    }
}

/// A transparent refractive material with index of refraction `ir`
/// (fixed point; `FP_ONE` is an index of one).
pub struct Dielectric {
    pub ir: i64,
}

/// A pure emitter: never scatters.
pub struct DiffuseLight {
    pub albedo: SceneTexture,
}

impl DiffuseLight {
    pub fn new(texture: SceneTexture) -> (r: DiffuseLight)
        ensures
            r.albedo == texture,
    {
        DiffuseLight { albedo: texture }
    }
}

/// An emitter that also scatters diffusely, its emission scaled by the
/// incidence angle like a point light.
pub struct FairyLight {
    pub albedo: SceneTexture,
}

impl FairyLight {
    pub fn new(texture: SceneTexture) -> (r: FairyLight)
        ensures
            r.albedo == texture,
    {
        FairyLight { albedo: texture }
    }
}

/// The closed set of materials.
pub enum MaterialType {
    Metal(Metal),
    Dielectric(Dielectric),
    Lambertian(Lambertian),
    DiffuseLight(DiffuseLight),
    FairyLight(FairyLight),
}

/// Bound on emissive colors.
pub open spec fn emit_limit() -> int {
    0x1000_0000
}

/// Material well-formedness: albedos bounded by one so attenuation cannot
/// grow, emitters bounded, the refraction index within a sane band.
pub open spec fn mat_wf(m: MaterialType) -> bool {
    match m {
        MaterialType::Metal(mt) => sv_bounded(mt.albedo@, FP_ONE as int) && 0 <= mt.fuzz
            <= FP_ONE as int,
        MaterialType::Dielectric(d) => FP_ONE as int / 2 <= d.ir <= 4 * FP_ONE as int,
        MaterialType::Lambertian(l) => tex_bounded(l.albedo, FP_ONE as int),
        MaterialType::DiffuseLight(dl) => tex_bounded(dl.albedo, emit_limit()),
        MaterialType::FairyLight(f) => tex_bounded(f.albedo, emit_limit()),
    }
}

/// The refraction ratio a dielectric uses: the inverse index entering the
/// medium, the index itself leaving it.
pub open spec fn dielectric_ratio(ir: int, front_face: bool) -> int {
    if front_face {
        crate::fixed::floor_div((FP_ONE as int) * (FP_ONE as int), ir)
    } else {
        ir
    }
}

/// The clamped cosine of the incidence angle of the unit direction.
pub open spec fn dielectric_cos(u: V3, n: V3) -> int {
    let c = sv_dot(sv_neg(u), n);
    if c > FP_ONE as int {
        FP_ONE as int
    } else {
        c
    }
}

/// Whether refraction is impossible past the critical angle (total internal
/// reflection), decided exactly on squared magnitudes.
pub open spec fn dielectric_tir(ratio: int, cos: int) -> bool {
    ratio * ratio * ((FP_ONE as int) * (FP_ONE as int) - cos * cos) > (FP_ONE as int)
        * (FP_ONE as int) * (FP_ONE as int) * (FP_ONE as int)
}

/// The incidence scale of the fairy light's emission, clamped into
/// `[0, 16]` units: `dot(normal, -direction) / |direction|`.
pub open spec fn fairy_scale(n: V3, d: V3) -> int {
    let raw = crate::fixed::floor_div(sv_dot(n, sv_neg(d)) * (FP_ONE as int),
        crate::vec3::sv_length(d));
    if raw < 0 {
        0
    } else if raw > 16 * FP_ONE as int {
        16 * FP_ONE as int
    } else {
        raw
    }
}

/// The light a fairy light emits toward a ray: the texture color scaled by
/// the incidence of the incoming direction on the surface normal.
pub open spec fn fairy_emit(tv: V3, n: V3, d: V3) -> V3 {
    crate::vec3::sv_scale(tv, fairy_scale(n, d))
}

/// A direction, or the surface normal where it quantized to zero.
pub open spec fn or_normal(dir: V3, n: V3) -> V3 {
    if dir != sv_zero() {
        dir
    } else {
        n
    }
}

/// What every scattering result satisfies: the new ray starts at the hit
/// point, has a bounded nonzero direction, and carries an attenuation
/// bounded by one.
pub open spec fn scatter_ok(s: Scatter, rec: crate::hit::H3) -> bool {
    &&& s.direction.orig@ == rec.point
    &&& s.direction.direction@ != sv_zero()
    &&& sv_bounded(s.direction.direction@, PROD_LIMIT as int)
    &&& sv_bounded(s.attenuation@, FP_ONE as int)
}

impl MaterialType {
    /// Scatters an incoming ray at a hit.  Beyond the general guarantees:
    /// a lambertian never yields a near-zero direction; a metal with zero
    /// fuzz is a deterministic mirror; a dielectric between identical media
    /// at exact normal incidence passes the unit ray through unchanged; a
    /// diffuse light never scatters.
    pub fn scatter(&self, rng: &mut RngSource, ray: &Ray, record: &HitRecord)
        -> (res: Option<Scatter>)
        requires
            mat_wf(*self),
            rec_wf(record@),
            sv_bounded(ray@.dir, PROD_LIMIT as int),
            ray@.dir != sv_zero(),
        ensures
            match res {
                Some(s) => scatter_ok(s, record@),
                None => self is DiffuseLight,
            },
            self is DiffuseLight ==> res is None,
            self is Lambertian || self is FairyLight || self is Dielectric ==> res is Some,
            match self {
                MaterialType::Metal(mt) => res is Some
                    && res->Some_0.attenuation == mt.albedo
                    && (mt.fuzz == 0 && sv_reflect(
                    sv_unit(ray@.dir), record@.normal) != sv_zero()
                    ==> res->Some_0.direction.direction@ == sv_reflect(sv_unit(ray@.dir),
                    record@.normal))
                    && (exists|p: V3| #[trigger] sv_bounded(p, FP_ONE as int)
                    && res->Some_0.direction.direction@ == or_normal(sv_add(sv_reflect(
                    sv_unit(ray@.dir), record@.normal), crate::vec3::sv_scale(p,
                    mt.fuzz as int)), record@.normal)),
                _ => true,
            },
            match self {
                MaterialType::Dielectric(d) => res is Some
                    && res->Some_0.attenuation@ == crate::vec3::sv_ones()
                    && ({
                    let u = sv_unit(ray@.dir);
                    let n = record@.normal;
                    let ratio = dielectric_ratio(d.ir as int, record@.front_face);
                    let cos = dielectric_cos(u, n);
                    let refl = or_normal(sv_reflect(u, n), n);
                    let refr = or_normal(sv_refract(u, n, ratio, cos), n);
                    &&& (res->Some_0.direction.direction@ == refl
                        || res->Some_0.direction.direction@ == refr)
                    &&& (dielectric_tir(ratio, cos)
                        ==> res->Some_0.direction.direction@ == refl)
                    }) && ((d.ir == FP_ONE as int && record@.front_face
                    && sv_unit(ray@.dir) == sv_neg(record@.normal)
                    && sv_dot(record@.normal, record@.normal) == FP_ONE as int
                    && sv_unit(ray@.dir) != sv_zero()) ==> res->Some_0.direction.direction@
                    == sv_unit(ray@.dir)),
                _ => true,
            },
            match self {
                MaterialType::Lambertian(l) => res is Some && res->Some_0.attenuation@ == tex_value(
                    l.albedo, record@.u, record@.v, record@.point),
                _ => true,
            },
            match self {
                MaterialType::FairyLight(f) => res is Some && res->Some_0.attenuation@ == ({
                    let tv = tex_value(f.albedo, record@.u, record@.v, record@.point);
                    if tv == sv_zero() {
                        tv
                    } else {
                        crate::vec3::sv_unit(tv)
                    }
                }),
                _ => true,
            },
    {
        match self {
            MaterialType::Lambertian(l) => {
                let rv = rng.unit_vector();
                let mut dir = record.normal.add(&rv);
                if dir.near_zero() {
                    dir = record.normal;
                }
                proof {
                    crate::texture::lemma_tex_bounded_mono(l.albedo, FP_ONE as int,
                        0x1_0000_0000);
                }
                let att = l.albedo.value(record.u, record.v, &record.point);
                Some(Scatter {
                    direction: Ray { orig: record.point, direction: dir },
                    attenuation: att,
                })
            },
            MaterialType::Metal(mt) => {
                let unit_dir = ray.direction.unit();
                let reflected = unit_dir.reflect(&record.normal);
                let dir = if mt.fuzz == 0 {
                    let d0 = if reflected.near_zero() {
                        record.normal
                    } else {
                        reflected
                    };
                    proof {
                        let z = sv_zero();
                        assert(z.x * (mt.fuzz as int) == 0 && z.y * (mt.fuzz as int) == 0
                            && z.z * (mt.fuzz as int) == 0);
                        vstd::arithmetic::div_mod::lemma_div_of0(FP_ONE as int);
                        assert(crate::vec3::sv_scale(z, mt.fuzz as int) == z);
                        assert(sv_add(reflected@, z) == reflected@);
                        assert(sv_bounded(z, FP_ONE as int));
                        assert(d0@ == or_normal(sv_add(sv_reflect(sv_unit(ray@.dir),
                            record@.normal), crate::vec3::sv_scale(z, mt.fuzz as int)),
                            record@.normal));
                    }
                    d0
                } else {
                    let fv = rng.in_unit_sphere();
                    proof {
                        mul_bound(fv@.x, mt.fuzz as int, FP_ONE as int, FP_ONE as int);
                        mul_bound(fv@.y, mt.fuzz as int, FP_ONE as int, FP_ONE as int);
                        mul_bound(fv@.z, mt.fuzz as int, FP_ONE as int, FP_ONE as int);
                    }
                    let perturbed = reflected.add(&fv.scale(mt.fuzz));
                    let dd = if perturbed.near_zero() {
                        record.normal
                    } else {
                        perturbed
                    };
                    proof {
                        assert(sv_bounded(fv@, FP_ONE as int));
                        assert(dd@ == or_normal(sv_add(sv_reflect(sv_unit(ray@.dir),
                            record@.normal), crate::vec3::sv_scale(fv@, mt.fuzz as int)),
                            record@.normal));
                    }
                    dd
                };
                Some(Scatter {
                    direction: Ray { orig: record.point, direction: dir },
                    attenuation: mt.albedo,
                })
            },
            MaterialType::Dielectric(d) => {
                let unit_dir = ray.direction.unit();
                let refraction_ratio: i64 = if record.front_face {
                    proof {
                        assert(-((2 * FP_ONE as int) * d.ir) <= FP_ONE as int * FP_ONE as int
                            <= (2 * FP_ONE as int) * d.ir) by (nonlinear_arith)
                            requires
                                FP_ONE as int / 2 <= d.ir <= 4 * FP_ONE as int,
                        ;
                        crate::fixed::lemma_floor_div_shrink(
                            (FP_ONE as int) * (FP_ONE as int), d.ir as int,
                            2 * FP_ONE as int);
                        vstd::arithmetic::div_mod::lemma_div_pos_is_pos(
                            (FP_ONE as int) * (FP_ONE as int), d.ir as int);
                    }
                    div_floor_i128((FP_ONE as i128) * (FP_ONE as i128), d.ir as i128) as i64
                } else {
                    d.ir
                };
                let cos_theta_raw = unit_dir.neg().dot(&record.normal);
                let cos_theta = if cos_theta_raw > FP_ONE {
                    FP_ONE
                } else {
                    cos_theta_raw
                };
                proof {
                    crate::vec3::lemma_dot_bound(sv_neg(sv_unit(ray@.dir)), record@.normal,
                        FP_ONE as int, 2 * FP_ONE as int, 6 * FP_ONE as int);
                }
                // sin^2 at scale FP_ONE^2; refraction is impossible past the
                // critical angle.
                proof {
                    mul_bound(cos_theta as int, cos_theta as int, 6 * FP_ONE as int,
                        6 * FP_ONE as int);
                    mul_bound(refraction_ratio as int, refraction_ratio as int,
                        4 * FP_ONE as int, 4 * FP_ONE as int);
                }
                let sin2_num: i128 = (FP_ONE as i128) * (FP_ONE as i128) - (cos_theta as i128)
                    * (cos_theta as i128);
                let ratio2: i128 = (refraction_ratio as i128) * (refraction_ratio as i128);
                proof {
                    mul_bound(ratio2 as int, sin2_num as int,
                        16 * (FP_ONE as int) * (FP_ONE as int),
                        40 * (FP_ONE as int) * (FP_ONE as int));
                }
                let tir = ratio2 * sin2_num > (FP_ONE as i128) * (FP_ONE as i128)
                    * (FP_ONE as i128) * (FP_ONE as i128);
                let refl = reflectance(cos_theta, refraction_ratio);
                let draw = rng.unit_scalar();
                let dir = if tir || refl > draw {
                    let r = unit_dir.reflect(&record.normal);
                    if r.near_zero() {
                        record.normal
                    } else {
                        r
                    }
                } else {
                    let r = refract(&unit_dir, &record.normal, refraction_ratio, cos_theta);
                    if r.near_zero() {
                        record.normal
                    } else {
                        r
                    }
                };
                proof {
                    let u = sv_unit(ray@.dir);
                    let n = record@.normal;
                    let f = FP_ONE as int;
                    assert(refraction_ratio as int == dielectric_ratio(d.ir as int,
                        record@.front_face));
                    assert(cos_theta as int == dielectric_cos(u, n));
                    assert(tir == dielectric_tir(refraction_ratio as int,
                        cos_theta as int));
                    if d.ir == FP_ONE as int && record@.front_face && u == sv_neg(n)
                        && sv_dot(n, n) == f && u != sv_zero() {
                        vstd::arithmetic::div_mod::lemma_div_multiples_vanish(f, f);
                        assert(f * f == f * f);
                        assert(refraction_ratio == FP_ONE);
                        assert(sv_neg(u) == n);
                        assert(cos_theta == FP_ONE);
                        assert(sin2_num == 0);
                        assert(ratio2 * sin2_num == 0) by (nonlinear_arith)
                            requires
                                sin2_num == 0,
                        ;
                        assert(!tir);
                        lemma_schlick_trivial();
                        assert(refl == 0);
                        assert(!(refl > draw));
                        crate::vec3::lemma_scale_one(n);
                        let perp = crate::vec3::sv_scale(crate::vec3::sv_add(
                            crate::vec3::sv_scale(n, f), u), FP_ONE as int);
                        assert(crate::vec3::sv_add(n, u) == sv_zero());
                        assert(perp == sv_zero());
                        assert(crate::vec3::sv_norm2_wide(sv_zero()) == 0);
                        vstd::arithmetic::div_mod::lemma_div_of0(f);
                        crate::vec3::lemma_sqrt_square(f);
                        assert(sv_refract(u, n, f, f) == u) by {
                            assert(crate::vec3::sv_scale(n, -f) == sv_neg(n));
                            assert(crate::vec3::sv_add(sv_zero(), sv_neg(n)) == sv_neg(n));
                        }
                        assert(dir@ == u);
                    }
                }
                Some(Scatter {
                    direction: Ray { orig: record.point, direction: dir },
                    attenuation: Color::ones(),
                })
            },
            MaterialType::DiffuseLight(_) => None,
            MaterialType::FairyLight(f) => {
                let rv = rng.unit_vector();
                let mut dir = record.normal.add(&rv);
                if dir.near_zero() {
                    dir = record.normal;
                }
                proof {
                    crate::texture::lemma_tex_bounded_mono(f.albedo, emit_limit(),
                        0x1_0000_0000);
                }
                let att = f.albedo.value(record.u, record.v, &record.point);
                let att = if att.0.near_zero() {
                    att
                } else {
                    Color(att.0.unit())
                };
                Some(Scatter {
                    direction: Ray { orig: record.point, direction: dir },
                    attenuation: att,
                })
            },
        }
    }

    /// The light a surface emits toward the ray, if any.
    pub fn emitted(&self, ray: &Ray, record: &HitRecord) -> (res: Option<Color>)
        requires
            mat_wf(*self),
            rec_wf(record@),
            sv_bounded(ray@.dir, PROD_LIMIT as int),
            ray@.dir != sv_zero(),
        ensures
            match res {
                Some(c) => sv_bounded(c@, 16 * emit_limit()),
                None => true,
            },
            self is Metal || self is Dielectric || self is Lambertian ==> res is None,
            match self {
                MaterialType::DiffuseLight(dl) => res is Some && res->Some_0@ == tex_value(
                    dl.albedo, record@.u, record@.v, record@.point),
                _ => true,
            },
            match self {
                MaterialType::FairyLight(f) => res is Some && res->Some_0@ == fairy_emit(
                    tex_value(f.albedo, record@.u, record@.v, record@.point),
                    record@.normal, ray@.dir),
                _ => true,
            },
    {
        match self {
            MaterialType::DiffuseLight(dl) => {
                proof {
                    crate::texture::lemma_tex_bounded_mono(dl.albedo, emit_limit(),
                        0x1_0000_0000);
                }
                let c = dl.albedo.value(record.u, record.v, &record.point);
                proof {
                    lemma_emit_bound(c@);
                }
                Some(c)
            },
            MaterialType::FairyLight(f) => {
                proof {
                    crate::texture::lemma_tex_bounded_mono(f.albedo, emit_limit(),
                        0x1_0000_0000);
                }
                let src = f.albedo.value(record.u, record.v, &record.point);
                let s = record.normal.dot(&ray.direction.neg());
                let len = ray.direction.length();
                proof {
                    crate::vec3::lemma_dot_bound(record@.normal, sv_neg(ray@.dir),
                        2 * FP_ONE as int, PROD_LIMIT as int, 0x1_0000_0000_0000);
                    mul_bound(s as int, FP_ONE as int, 0x1_0000_0000_0000, FP_ONE as int);
                }
                proof {
                    assert(len >= 1);
                }
                let sc_raw = div_floor_i128((s as i128) * (FP_ONE as i128), len as i128);
                proof {
                    crate::fixed::lemma_floor_div_bound(s as int * (FP_ONE as int), len as int);
                }
                let sc = clamp_scale(sc_raw);
                proof {
                    mul_bound(src@.x, sc as int, emit_limit(), 16 * FP_ONE as int);
                    mul_bound(src@.y, sc as int, emit_limit(), 16 * FP_ONE as int);
                    mul_bound(src@.z, sc as int, emit_limit(), 16 * FP_ONE as int);
                }
                let c = Color(src.0.scale(sc));
                proof {
                    crate::fixed::lemma_floor_div_shrink(src@.x * sc as int, FP_ONE as int,
                        16 * emit_limit());
                    crate::fixed::lemma_floor_div_shrink(src@.y * sc as int, FP_ONE as int,
                        16 * emit_limit());
                    crate::fixed::lemma_floor_div_shrink(src@.z * sc as int, FP_ONE as int,
                        16 * emit_limit());
                }
                Some(c)
            },
            _ => None,
        }
    }
}

/// Colors within the emissive bound stay within sixteen times of it.
proof fn lemma_emit_bound(c: V3)
    requires
        sv_bounded(c, emit_limit()),
    ensures
        sv_bounded(c, 16 * emit_limit()),
{
}

/// Clamp the fairy-light incidence scale into `[0, 16]` units.
fn clamp_scale(x: i128) -> (r: i64)
    requires
        x > i128::MIN,
    ensures
        0 <= r <= 16 * FP_ONE as int,
        r == if x < 0 {
            0int
        } else if x > 16 * FP_ONE as int {
            16 * FP_ONE as int
        } else {
            x as int
        },
{
    if x < 0 {
        0
    } else if x > 16 * (FP_ONE as i128) {
        16 * FP_ONE
    } else {
        x as i64
    }
}

/// The Schlick reflectance approximation, in fixed point.
fn reflectance(cosine: i64, ref_idx: i64) -> (r: i64)
    requires
        -(6 * FP_ONE as int) <= cosine <= FP_ONE as int,
        0 <= ref_idx <= 4 * FP_ONE as int,
    ensures
        r == schlick(cosine as int, ref_idx as int),
{
    proof {
        mul_bound(FP_ONE as int - ref_idx as int, FP_ONE as int, 262144, 65536);
        assert(-((4 * FP_ONE as int) * (FP_ONE as int + ref_idx as int))
            <= (FP_ONE as int - ref_idx as int) * (FP_ONE as int)
            <= (4 * FP_ONE as int) * (FP_ONE as int + ref_idx as int)) by (nonlinear_arith)
            requires
                0 <= ref_idx as int <= 4 * FP_ONE as int,
                FP_ONE == 65536,
        ;
        crate::fixed::lemma_floor_div_shrink((FP_ONE as int - ref_idx as int)
            * (FP_ONE as int), FP_ONE as int + ref_idx as int, 4 * FP_ONE as int);
    }
    let r0a = div_floor_i128(((FP_ONE as i128) - (ref_idx as i128)) * (FP_ONE as i128),
        (FP_ONE as i128) + (ref_idx as i128)) as i64;
    proof {
        crate::vec3::lemma_scale_result(r0a as int, r0a as int, 262144, 262144, 1048576);
    }
    let r0 = fp_mul(r0a, r0a);
    let omc = FP_ONE - cosine;
    proof {
        crate::vec3::lemma_scale_result(omc as int, omc as int, 458752, 458752, 3211264);
    }
    let p2 = fp_mul(omc, omc);
    proof {
        crate::vec3::lemma_scale_result(p2 as int, p2 as int, 3211264, 3211264, 157351936);
    }
    let p4 = fp_mul(p2, p2);
    proof {
        crate::vec3::lemma_scale_result(p4 as int, omc as int, 157351936, 458752,
            1101529088);
    }
    let p5 = fp_mul(p4, omc);
    proof {
        crate::vec3::lemma_scale_result(FP_ONE as int - r0 as int, p5 as int, 1114112,
            1101529088, 18726571664);
    }
    fp_mul(FP_ONE - r0, p5) + r0
}

/// At an index ratio of one and normal incidence the Schlick reflectance
/// vanishes.
proof fn lemma_schlick_trivial()
    ensures
        schlick(FP_ONE as int, FP_ONE as int) == 0,
{
    let f = FP_ONE as int;
    vstd::arithmetic::div_mod::lemma_div_of0(f + f);
    vstd::arithmetic::div_mod::lemma_div_of0(f);
    assert((f - f) * f == 0) by (nonlinear_arith);
    assert(0 * 0 == 0) by (nonlinear_arith);
    assert(floor_div(0, f + f) == 0);
    assert(floor_div(0, f) == 0);
    assert(f * 0 == 0) by (nonlinear_arith);
    assert((f - 0) * 0 == 0) by (nonlinear_arith);
}

/// The Schlick reflectance as a mathematical function.
pub open spec fn schlick(cosine: int, ref_idx: int) -> int {
    let f = FP_ONE as int;
    let r0a = floor_div((f - ref_idx) * f, f + ref_idx);
    let r0 = floor_div(r0a * r0a, f);
    let omc = f - cosine;
    let p2 = floor_div(omc * omc, f);
    let p4 = floor_div(p2 * p2, f);
    let p5 = floor_div(p4 * omc, f);
    floor_div((f - r0) * p5, f) + r0
}

/// One fixed-point product.
fn fp_mul(a: i64, b: i64) -> (r: i64)
    requires
        -(0x8000_0000) <= a <= 0x8000_0000,
        -(0x8000_0000) <= b <= 0x8000_0000,
    ensures
        r == floor_div(a as int * b as int, FP_ONE as int),
{
    proof {
        mul_bound(a as int, b as int, 0x8000_0000, 0x8000_0000);
        crate::fixed::lemma_floor_div_shrink(a as int * b as int, FP_ONE as int,
            0x1_0000_0000_0000);
    }
    div_floor_i128((a as i128) * (b as i128), FP_ONE as i128) as i64
}

/// Snell refraction of a unit direction about a unit-scale normal.
fn refract(unit_dir: &Vec3, normal: &Vec3, ratio: i64, cos_theta: i64) -> (r: Vec3)
    requires
        sv_bounded(unit_dir@, FP_ONE as int),
        sv_bounded(normal@, 2 * FP_ONE as int),
        0 <= ratio <= 4 * FP_ONE as int,
        -(6 * FP_ONE as int) <= cos_theta <= FP_ONE as int,
    ensures
        r@ == sv_refract(unit_dir@, normal@, ratio as int, cos_theta as int),
        sv_bounded(r@, 512 * FP_ONE as int),
{
    proof {
        crate::vec3::lemma_scale_fits(normal@.x, cos_theta as int, 131072, 393216);
        crate::vec3::lemma_scale_fits(normal@.y, cos_theta as int, 131072, 393216);
        crate::vec3::lemma_scale_fits(normal@.z, cos_theta as int, 131072, 393216);
        crate::vec3::lemma_scale_result(normal@.x, cos_theta as int, 131072, 393216, 786432);
        crate::vec3::lemma_scale_result(normal@.y, cos_theta as int, 131072, 393216, 786432);
        crate::vec3::lemma_scale_result(normal@.z, cos_theta as int, 131072, 393216, 786432);
    }
    let scaled_n = normal.scale(cos_theta);
    let summed = scaled_n.add(unit_dir);
    proof {
        crate::vec3::lemma_scale_fits(summed@.x, ratio as int, 851968, 262144);
        crate::vec3::lemma_scale_fits(summed@.y, ratio as int, 851968, 262144);
        crate::vec3::lemma_scale_fits(summed@.z, ratio as int, 851968, 262144);
        crate::vec3::lemma_scale_result(summed@.x, ratio as int, 851968, 262144, 3407872);
        crate::vec3::lemma_scale_result(summed@.y, ratio as int, 851968, 262144, 3407872);
        crate::vec3::lemma_scale_result(summed@.z, ratio as int, 851968, 262144, 3407872);
    }
    let r_out_perp = summed.scale(ratio);
    proof {
        mul_bound(r_out_perp@.x, r_out_perp@.x, 3407872, 3407872);
        mul_bound(r_out_perp@.y, r_out_perp@.y, 3407872, 3407872);
        mul_bound(r_out_perp@.z, r_out_perp@.z, 3407872, 3407872);
        crate::fixed::lemma_floor_div_shrink(crate::vec3::sv_norm2_wide(r_out_perp@),
            FP_ONE as int, 0x2000_0000);
    }
    let perp_lsq = r_out_perp.length_squared();
    let par_sq: i64 = if perp_lsq < FP_ONE {
        FP_ONE - perp_lsq
    } else {
        perp_lsq - FP_ONE
    };
    let root = isqrt_u128((par_sq as u128) * (FP_ONE as u128));
    proof {
        crate::vec3::lemma_sqrt_unique((par_sq as int) * (FP_ONE as int), root as int);
        assert(root as int <= 8388608) by (nonlinear_arith)
            requires
                (root as int) * (root as int) <= (par_sq as int) * (FP_ONE as int),
                0 <= par_sq as int <= 0x2001_0000,
                FP_ONE == 65536,
                root >= 0,
        ;
    }
    let mag: i64 = -(root as i64);
    proof {
        crate::vec3::lemma_scale_fits(normal@.x, mag as int, 131072, 8388608);
        crate::vec3::lemma_scale_fits(normal@.y, mag as int, 131072, 8388608);
        crate::vec3::lemma_scale_fits(normal@.z, mag as int, 131072, 8388608);
        crate::vec3::lemma_scale_result(normal@.x, mag as int, 131072, 8388608, 16777216);
        crate::vec3::lemma_scale_result(normal@.y, mag as int, 131072, 8388608, 16777216);
        crate::vec3::lemma_scale_result(normal@.z, mag as int, 131072, 8388608, 16777216);
    }
    let r_out_parallel = normal.scale(mag);
    r_out_perp.add(&r_out_parallel)
}

/// The refraction formula as a mathematical function: the perpendicular
/// part is the scaled sum, the parallel part is the square-rooted residual
/// along the normal.
pub open spec fn sv_refract(unit_dir: V3, normal: V3, ratio: int, cos_theta: int) -> V3 {
    let r_out_perp = crate::vec3::sv_scale(crate::vec3::sv_add(crate::vec3::sv_scale(normal,
        cos_theta), unit_dir), ratio);
    let lsq = floor_div(crate::vec3::sv_norm2_wide(r_out_perp), FP_ONE as int);
    let residual = if lsq < FP_ONE as int {
        FP_ONE as int - lsq
    } else {
        lsq - FP_ONE as int
    };
    let mag = -crate::vec3::sqrt_of(residual * (FP_ONE as int));
    crate::vec3::sv_add(r_out_perp, crate::vec3::sv_scale(normal, mag))
}

} // verus!

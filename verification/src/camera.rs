//! The camera: immutable optics, per-shot placement, and ray generation.

use vstd::prelude::*;

use crate::error::RenderError;
use crate::fixed::{div_floor_i128, floor_div, isqrt_u128, FP_ONE};
use crate::rng::RngSource;
use crate::sphere::ray_wf;
use crate::vec3::{
    lemma_scale_fits, lemma_scale_result, mul_bound, sv_bounded, sv_zero, Point, Ray, Vec3,
    GEO_LIMIT, PROD_LIMIT,
};

verus! {

/// Image dimensions in pixels.
#[derive(Clone, Copy, Debug, PartialEq, Eq, Structural)]
pub struct Dimmensions {
    pub width: usize,
    pub height: usize,
}

/// An aspect ratio as a rational number.
#[derive(Clone, Copy, Debug, PartialEq, Eq, Structural)]
pub enum AspectRatio {
    Rational(u32, u32),
}

pub open spec fn ratio_wf(r: AspectRatio) -> bool {
    match r {
        AspectRatio::Rational(n, d) => 1 <= n <= 0x4000 && 1 <= d <= 0x4000,
    }
}

/// A derived pixel extent, clamped into the supported range.
pub open spec fn clamp_pixels(x: int) -> int {
    if x < 1 {
        1
    } else if x > 0x4000 {
        0x4000
    } else {
        x
    }
}

/// The standard aspect ratios offered on the command line.
#[derive(Clone, Copy, Debug, PartialEq, Eq, Structural)]
pub enum CameraAspectRatio {
    Std3x2,
    Std16x9,
    Std16x10,
    Square,
    TargetIphone,
}

impl CameraAspectRatio {
    /// The ratio as a numerator-denominator pair.
    pub fn ratio(&self) -> (r: (u32, u32))
        ensures
            r == match self {
                CameraAspectRatio::Std3x2 => (3u32, 2u32),
                CameraAspectRatio::Std16x9 => (16u32, 9u32),
                CameraAspectRatio::Std16x10 => (16u32, 10u32),
                CameraAspectRatio::Square => (1u32, 1u32),
                CameraAspectRatio::TargetIphone => (1170u32, 2532u32),
            },
    {
        match self {
            CameraAspectRatio::Std3x2 => (3, 2),
            CameraAspectRatio::Std16x9 => (16, 9),
            CameraAspectRatio::Std16x10 => (16, 10),
            CameraAspectRatio::Square => (1, 1),
            CameraAspectRatio::TargetIphone => (1170, 2532),
        }
    }
}

impl Dimmensions {
    /// Dimensions from a width and an aspect ratio; the height is clamped
    /// into the supported pixel range.
    pub fn from_aspect_ratio(width: usize, ratio: AspectRatio) -> (r: Dimmensions)
        requires
            1 <= width <= 0x4000,
            ratio_wf(ratio),
        ensures
            r.width == width,
            1 <= r.height <= 0x4000,
            r.height as int == clamp_pixels(crate::fixed::floor_div(width as int
                * (ratio->Rational_1 as int), ratio->Rational_0 as int)),
    {
        let (n, d) = match ratio {
            AspectRatio::Rational(n, d) => (n, d),
        };
        proof {
            mul_bound(width as int, d as int, 0x4000, 0x4000);
        }
        let h = (width * (d as usize)) / (n as usize);
        let h = if h < 1 {
            1
        } else if h > 0x4000 {
            0x4000
        } else {
            h
        };
        Dimmensions { width, height: h }
    }

    /// Exactly two of height, width and aspect ratio must be given; the
    /// missing one is derived.
    pub fn from_two_of_three(height: Option<usize>, width: Option<usize>,
        ratio: Option<AspectRatio>) -> (r: Result<(Dimmensions, AspectRatio), RenderError>)
        requires
            height is Some ==> 1 <= height->0 <= 0x4000,
            width is Some ==> 1 <= width->0 <= 0x4000,
            ratio is Some ==> ratio_wf(ratio->0),
        ensures
            r is Ok <==> {
                let given = (if height is Some { 1int } else { 0int }) + (if width is Some {
                    1int
                } else {
                    0int
                }) + (if ratio is Some { 1int } else { 0int });
                given == 2
            },
            r is Err ==> (r->Err_0 == RenderError::CameraUnderSpecified || r->Err_0
                == RenderError::CameraOverSpecified),
            r is Ok ==> 1 <= r->Ok_0.0.width <= 0x4000 && 1 <= r->Ok_0.0.height <= 0x4000
                && ratio_wf(r->Ok_0.1),
            height is None && width is Some && ratio is Some ==> r is Ok
                && r->Ok_0.0.width == width->0 && r->Ok_0.1 == ratio->0
                && r->Ok_0.0.height as int == clamp_pixels(crate::fixed::floor_div(
                width->0 as int * (ratio->0->Rational_1 as int),
                ratio->0->Rational_0 as int)),
            height is Some && width is None && ratio is Some ==> r is Ok
                && r->Ok_0.0.height == height->0 && r->Ok_0.1 == ratio->0
                && r->Ok_0.0.width as int == clamp_pixels(crate::fixed::floor_div(
                height->0 as int * (ratio->0->Rational_0 as int),
                ratio->0->Rational_1 as int)),
            height is Some && width is Some && ratio is None ==> r is Ok
                && r->Ok_0.0.height == height->0 && r->Ok_0.0.width == width->0
                && r->Ok_0.1 == AspectRatio::Rational(height->0 as u32, width->0 as u32),
    {
        match (height, width, ratio) {
            (None, Some(w), Some(r)) => {
                let dimm = Dimmensions::from_aspect_ratio(w, r);
                Ok((dimm, r))
            },
            (Some(h), None, Some(r)) => {
                let (n, d) = match r {
                    AspectRatio::Rational(n, d) => (n, d),
                };
                proof {
                    mul_bound(h as int, n as int, 0x4000, 0x4000);
                }
                let w = (h * (n as usize)) / (d as usize);
                let w = if w < 1 {
                    1
                } else if w > 0x4000 {
                    0x4000
                } else {
                    w
                };
                Ok((Dimmensions { width: w, height: h }, r))
            },
            (Some(h), Some(w), None) => {
                let r = AspectRatio::Rational(h as u32, w as u32);
                Ok((Dimmensions { width: w, height: h }, r))
            },
            (Some(_), Some(_), Some(_)) => Err(RenderError::CameraOverSpecified),
            _ => Err(RenderError::CameraUnderSpecified),
        }
    }
}

/// Immutable optics: viewport size, focal length, lens radius and image
/// dimensions.
#[derive(Debug)]
pub struct Camera {
    pub height: i64,
    pub width: i64,
    pub lens_radius: Option<i64>,
    pub focal_length: i64,
    pub dimm: Dimmensions,
}

pub open spec fn camera_wf(c: Camera) -> bool {
    &&& 1 <= c.height <= 8 * FP_ONE as int
    &&& 1 <= c.width <= 8 * FP_ONE as int
    &&& 1 <= c.focal_length <= 8 * FP_ONE as int
    &&& match c.lens_radius {
        Some(lr) => 0 <= lr <= FP_ONE as int,
        None => true,
    }
    &&& 1 <= c.dimm.width <= 0x4000
    &&& 1 <= c.dimm.height <= 0x4000
    &&& c.dimm.width * c.dimm.height <= 0x1000_0000
}

/// Per-shot placement: position and orthonormal-ish viewing basis.
pub struct CameraPosition {
    pub origin: Point,
    pub focus_length: i64,
    pub w: Vec3,
    pub u: Vec3,
    pub v: Vec3,
}

pub open spec fn pos_wf(p: CameraPosition) -> bool {
    &&& sv_bounded(p.origin@, GEO_LIMIT as int)
    &&& sv_bounded(p.w@, 2 * FP_ONE as int)
    &&& sv_bounded(p.u@, 2 * FP_ONE as int)
    &&& sv_bounded(p.v@, 2 * FP_ONE as int)
    &&& p.w@ != sv_zero()
    &&& 1 <= p.focus_length <= 64 * FP_ONE as int
}

impl CameraPosition {
    /// Builds the placement looking from `camera` toward `target`; a basis
    /// axis that degenerates falls back to a coordinate axis.
    pub fn look_at(camera: Point, target: Point, up: Vec3) -> (r: CameraPosition)
        requires
            sv_bounded(camera@, GEO_LIMIT as int),
            sv_bounded(target@, GEO_LIMIT as int),
            sv_bounded(up@, FP_ONE as int),
        ensures
            pos_wf(r),
            r.origin == camera,
            ({
                let delta = crate::vec3::sv_sub(camera@, target@);
                if delta == sv_zero() {
                    r.w@ == (crate::vec3::V3 { x: 0, y: 0, z: FP_ONE as int })
                        && r.focus_length == 1
                } else {
                    r.w@ == crate::vec3::sv_unit(delta) && r.focus_length as int == ({
                        let f = crate::vec3::sv_length(delta);
                        if f > 64 * FP_ONE as int {
                            64 * FP_ONE as int
                        } else {
                            f
                        }
                    })
                }
            }),
            ({
                let cu = crate::vec3::sv_cross(up@, r.w@);
                r.u@ == if cu == sv_zero() {
                    (crate::vec3::V3 { x: FP_ONE as int, y: 0, z: 0 })
                } else {
                    crate::vec3::sv_unit(cu)
                }
            }),
            r.v@ == crate::vec3::sv_cross(r.w@, r.u@),
    {
        let delta = camera.0.sub(&target.0);
        let (w, focus) = if delta.near_zero() {
            (Vec3::new(0, 0, FP_ONE), 1)
        } else {
            let f = delta.length();
            let f = if f > 64 * FP_ONE {
                64 * FP_ONE
            } else {
                f
            };
            (delta.unit(), f)
        };
        let cu = up.cross(&w);
        proof {
            mul_bound(up@.y, w@.z, 65536, 65536);
            mul_bound(up@.z, w@.y, 65536, 65536);
            mul_bound(up@.z, w@.x, 65536, 65536);
            mul_bound(up@.x, w@.z, 65536, 65536);
            mul_bound(up@.x, w@.y, 65536, 65536);
            mul_bound(up@.y, w@.x, 65536, 65536);
            crate::fixed::lemma_floor_div_shrink(up@.y * w@.z - up@.z * w@.y, FP_ONE as int,
                131072);
            crate::fixed::lemma_floor_div_shrink(up@.z * w@.x - up@.x * w@.z, FP_ONE as int,
                131072);
            crate::fixed::lemma_floor_div_shrink(up@.x * w@.y - up@.y * w@.x, FP_ONE as int,
                131072);
        }
        let u = if cu.near_zero() {
            Vec3::new(FP_ONE, 0, 0)
        } else {
            cu_unit(cu)
        };
        let v = w.cross(&u);
        proof {
            mul_bound(w@.y, u@.z, 65536, 65536);
            mul_bound(w@.z, u@.y, 65536, 65536);
            mul_bound(w@.z, u@.x, 65536, 65536);
            mul_bound(w@.x, u@.z, 65536, 65536);
            mul_bound(w@.x, u@.y, 65536, 65536);
            mul_bound(w@.y, u@.x, 65536, 65536);
            crate::fixed::lemma_floor_div_shrink(w@.y * u@.z - w@.z * u@.y, FP_ONE as int,
                131072);
            crate::fixed::lemma_floor_div_shrink(w@.z * u@.x - w@.x * u@.z, FP_ONE as int,
                131072);
            crate::fixed::lemma_floor_div_shrink(w@.x * u@.y - w@.y * u@.x, FP_ONE as int,
                131072);
        }
        CameraPosition { origin: camera, focus_length: focus, w, u, v }
    }
}

/// The unit vector of a nondegenerate cross product.
fn cu_unit(cu: Vec3) -> (r: Vec3)
    requires
        sv_bounded(cu@, PROD_LIMIT as int),
        cu@ != sv_zero(),
    ensures
        r@ == crate::vec3::sv_unit(cu@),
        sv_bounded(r@, FP_ONE as int),
{
    cu.unit()
}

/// The tangent of half the field of view, in fixed point, through a short
/// cosine series; inputs are degrees in fixed point.
pub open spec fn tan_half_fov(vfov: int) -> int {
    let x = floor_div(vfov * (crate::texture::PI_FP as int), 23592960);
    let x2 = floor_div(x * x, FP_ONE as int);
    let x4 = floor_div(x2 * x2, FP_ONE as int);
    let x6 = floor_div(x4 * x2, FP_ONE as int);
    let craw = FP_ONE as int - floor_div(x2, 2) + floor_div(x4, 24) - floor_div(x6, 720);
    let c = if craw < 1 {
        1
    } else if craw > FP_ONE as int {
        FP_ONE as int
    } else {
        craw
    };
    let s = crate::vec3::sqrt_of((FP_ONE as int) * (FP_ONE as int) - c * c);
    let t = floor_div(s * (FP_ONE as int), c);
    if t < 1 {
        1
    } else if t > 4 * FP_ONE as int {
        4 * FP_ONE as int
    } else {
        t
    }
}

/// Computes `tan_half_fov` on fixed-point degrees.
fn tan_half_fov_exec(vfov: i64) -> (r: i64)
    requires
        0 < vfov <= 150 * FP_ONE as int,
    ensures
        r == tan_half_fov(vfov as int),
        1 <= r <= 4 * FP_ONE as int,
{
    proof {
        mul_bound(vfov as int, crate::texture::PI_FP as int, 9830400, 205887);
        crate::fixed::lemma_floor_div_shrink(vfov as int * (crate::texture::PI_FP as int),
            23592960, 131072);
    }
    let x = div_floor_i128((vfov as i128) * (crate::texture::PI_FP as i128), 23592960) as i64;
    proof {
        lemma_scale_result(x as int, x as int, 131072, 131072, 262144);
    }
    let x2 = div_floor_i128((x as i128) * (x as i128), FP_ONE as i128) as i64;
    proof {
        lemma_scale_result(x2 as int, x2 as int, 262144, 262144, 1048576);
    }
    let x4 = div_floor_i128((x2 as i128) * (x2 as i128), FP_ONE as i128) as i64;
    proof {
        lemma_scale_result(x4 as int, x2 as int, 1048576, 262144, 4194304);
    }
    let x6 = div_floor_i128((x4 as i128) * (x2 as i128), FP_ONE as i128) as i64;
    proof {
        crate::fixed::lemma_floor_div_bound(x2 as int, 2);
        crate::fixed::lemma_floor_div_bound(x4 as int, 24);
        crate::fixed::lemma_floor_div_bound(x6 as int, 720);
        vstd::arithmetic::div_mod::lemma_div_pos_is_pos(x2 as int, 2);
        vstd::arithmetic::div_mod::lemma_div_pos_is_pos(x4 as int, 24);
        vstd::arithmetic::div_mod::lemma_div_pos_is_pos(x6 as int, 720);
    }
    let craw = FP_ONE - (div_floor_i128(x2 as i128, 2) as i64) + (div_floor_i128(x4 as i128,
        24) as i64) - (div_floor_i128(x6 as i128, 720) as i64);
    let c: i64 = if craw < 1 {
        1
    } else if craw > FP_ONE {
        FP_ONE
    } else {
        craw
    };
    proof {
        mul_bound(c as int, c as int, 65536, 65536);
    }
    let s2: i128 = (FP_ONE as i128) * (FP_ONE as i128) - (c as i128) * (c as i128);
    let s = isqrt_u128(s2 as u128);
    proof {
        crate::vec3::lemma_sqrt_unique(s2 as int, s as int);
        assert(s as int <= 65536) by (nonlinear_arith)
            requires
                (s as int) * (s as int) <= s2 as int,
                s2 as int <= 65536 * 65536,
                s >= 0,
        ;
        mul_bound(s as int, FP_ONE as int, 65536, 65536);
        crate::fixed::lemma_floor_div_bound(s as int * (FP_ONE as int), c as int);
    }
    let t = div_floor_i128((s as i128) * (FP_ONE as i128), c as i128) as i64;
    if t < 1 {
        1
    } else if t > 4 * FP_ONE {
        4 * FP_ONE
    } else {
        t
    }
}

/// Accumulates optional camera parameters until `build`.
pub struct CameraBuilder {
    pub height: Option<usize>,
    pub width: Option<usize>,
    pub focal_length: Option<i64>,
    pub aperture: Option<i64>,
    pub vfov: Option<i64>,
    pub ratio: Option<AspectRatio>,
}

impl Default for CameraBuilder {
    /// A builder with nothing chosen yet.
    fn default() -> (r: Self)
        ensures
            r.height is None && r.width is None && r.focal_length is None && r.aperture
                is None && r.vfov is None && r.ratio is None,
    {
        CameraBuilder {
            height: None,
            width: None,
            focal_length: None,
            aperture: None,
            vfov: None,
            ratio: None,
        }
    }
}

pub open spec fn builder_wf(b: CameraBuilder) -> bool {
    &&& match b.height {
        Some(h) => 1 <= h <= 0x4000,
        None => true,
    }
    &&& match b.width {
        Some(w) => 1 <= w <= 0x4000,
        None => true,
    }
    &&& match b.focal_length {
        Some(f) => 1 <= f <= 8 * FP_ONE as int,
        None => true,
    }
    &&& match b.aperture {
        Some(a) => 0 <= a <= 2 * FP_ONE as int,
        None => true,
    }
    &&& match b.vfov {
        Some(v) => 0 < v <= 150 * FP_ONE as int,
        None => true,
    }
    &&& match b.ratio {
        Some(r) => ratio_wf(r),
        None => true,
    }
}

impl CameraBuilder {
    /// The vertical field of view, in fixed-point degrees.
    pub fn vfov(&mut self, vfov: i64)
        requires
            0 < vfov <= 150 * FP_ONE as int,
            builder_wf(*old(self)),
        ensures
            builder_wf(*final(self)),
            final(self).vfov == Some(vfov),
            final(self).height == old(self).height && final(self).width == old(self).width
                && final(self).focal_length == old(self).focal_length && final(self).aperture
                == old(self).aperture && final(self).ratio == old(self).ratio,
    {
        self.vfov = Some(vfov);
    }

    /// The lens aperture, in fixed point.
    pub fn aperture(&mut self, aperture: i64)
        requires
            0 <= aperture <= 2 * FP_ONE as int,
            builder_wf(*old(self)),
        ensures
            builder_wf(*final(self)),
            final(self).aperture == Some(aperture),
            final(self).height == old(self).height && final(self).width == old(self).width
                && final(self).focal_length == old(self).focal_length && final(self).vfov
                == old(self).vfov && final(self).ratio == old(self).ratio,
    {
        self.aperture = Some(aperture);
    }

    /// The focal length, in fixed point.
    pub fn focal_length(&mut self, focal_length: i64)
        requires
            1 <= focal_length <= 8 * FP_ONE as int,
            builder_wf(*old(self)),
        ensures
            builder_wf(*final(self)),
            final(self).focal_length == Some(focal_length),
            final(self).height == old(self).height && final(self).width == old(self).width
                && final(self).aperture == old(self).aperture && final(self).vfov
                == old(self).vfov && final(self).ratio == old(self).ratio,
    {
        self.focal_length = Some(focal_length);
    }

    /// The aspect ratio.
    pub fn aspect_ratio(&mut self, ratio: AspectRatio)
        requires
            ratio_wf(ratio),
            builder_wf(*old(self)),
        ensures
            builder_wf(*final(self)),
            final(self).ratio == Some(ratio),
            final(self).height == old(self).height && final(self).width == old(self).width
                && final(self).focal_length == old(self).focal_length && final(self).aperture
                == old(self).aperture && final(self).vfov == old(self).vfov,
    {
        self.ratio = Some(ratio);
    }

    /// The image width in pixels.
    pub fn width(&mut self, width: usize)
        requires
            1 <= width <= 0x4000,
            builder_wf(*old(self)),
        ensures
            builder_wf(*final(self)),
            final(self).width == Some(width),
            final(self).height == old(self).height && final(self).ratio == old(self).ratio
                && final(self).focal_length == old(self).focal_length && final(self).aperture
                == old(self).aperture && final(self).vfov == old(self).vfov,
    {
        self.width = Some(width);
    }

    /// Builds the camera.  Fails exactly when the image dimensions are
    /// under- or over-specified.
    pub fn build(self) -> (r: Result<Camera, RenderError>)
        requires
            builder_wf(self),
        ensures
            r is Ok <==> {
                let given = (if self.height is Some { 1int } else { 0int })
                    + (if self.width is Some { 1int } else { 0int }) + (if self.ratio
                    is Some { 1int } else { 0int });
                given == 2
            },
            r is Err ==> (r->Err_0 == RenderError::CameraUnderSpecified || r->Err_0
                == RenderError::CameraOverSpecified),
            r is Ok ==> camera_wf(r->Ok_0),
    {
        let pair = match Dimmensions::from_two_of_three(self.height, self.width, self.ratio) {
            Ok(p) => p,
            Err(e) => {
                return Err(e);
            },
        };
        let (dimm, ratio) = pair;
        let vfov = match self.vfov {
            Some(v) => v,
            None => FP_ONE,
        };
        let h = tan_half_fov_exec(vfov);
        let height: i64 = 2 * h;
        let (n, d) = match ratio {
            AspectRatio::Rational(n, d) => (n, d),
        };
        proof {
            mul_bound(height as int, n as int, 0x10_0000, 0x4000);
            crate::fixed::lemma_floor_div_bound(height as int * n as int, d as int);
        }
        let wide: i64 = div_floor_i128((height as i128) * (n as i128), d as i128) as i64;
        let width: i64 = if wide < 1 {
            1
        } else if wide > 8 * FP_ONE {
            8 * FP_ONE
        } else {
            wide
        };
        let lens_radius = match self.aperture {
            Some(a) => Some(((a as u64) / 2) as i64),
            None => None,
        };
        proof {
            mul_bound(dimm.width as int, dimm.height as int, 0x4000, 0x4000);
            assert((height as int) * (n as int) >= 0) by (nonlinear_arith)
                requires
                    height >= 0,
                    n >= 1,
            ;
            vstd::arithmetic::div_mod::lemma_div_pos_is_pos((height as int) * (n as int),
                d as int);
        }
        Ok(Camera {
            height,
            width,
            lens_radius,
            focal_length: match self.focal_length {
                Some(f) => f,
                None => FP_ONE,
            },
            dimm,
        })
    }
}

/// The fractional position of a jittered pixel inside the image.
pub open spec fn cam_fraction(xi: int, j: int, extent: int) -> int {
    floor_div(xi * (FP_ONE as int) + j, extent)
}

/// A viewport span stretched by the focus distance.
pub open spec fn cam_span(span: int, focus: int) -> int {
    floor_div(span * focus, FP_ONE as int)
}

/// The focus-scaled horizontal viewport vector.
pub open spec fn cam_horizontal(c: Camera, p: CameraPosition) -> crate::vec3::V3 {
    crate::vec3::sv_scale(p.u@, cam_span(c.width as int, p.focus_length as int))
}

/// The focus-scaled vertical viewport vector.
pub open spec fn cam_vertical(c: Camera, p: CameraPosition) -> crate::vec3::V3 {
    crate::vec3::sv_scale(p.v@, cam_span(c.height as int, p.focus_length as int))
}

/// The viewport's lower-left corner: the origin, backed off by half of each
/// viewport span and by the focus-scaled focal length along the view axis.
pub open spec fn cam_lower_left(c: Camera, p: CameraPosition) -> crate::vec3::V3 {
    let forward = crate::vec3::sv_scale(p.w@, cam_span(c.focal_length as int,
        p.focus_length as int));
    crate::vec3::sv_sub(crate::vec3::sv_sub(crate::vec3::sv_sub(p.origin@,
        crate::vec3::sv_scale(cam_horizontal(c, p), FP_ONE as int / 2)),
        crate::vec3::sv_scale(cam_vertical(c, p), FP_ONE as int / 2)), forward)
}

/// The direction of the lens-free camera ray through a jittered pixel.
pub open spec fn cam_ray_dir(c: Camera, p: CameraPosition, x: int, jx: int, y: int,
    jy: int) -> crate::vec3::V3 {
    crate::vec3::sv_sub(crate::vec3::sv_add(crate::vec3::sv_add(cam_lower_left(c, p),
        crate::vec3::sv_scale(cam_horizontal(c, p), cam_fraction(x, jx,
        c.dimm.width as int))), crate::vec3::sv_scale(cam_vertical(c, p), cam_fraction(y, jy,
        c.dimm.height as int))), p.origin@)
}

impl Camera {
    /// The camera ray through a pixel, jittered inside the pixel for
    /// anti-aliasing, with lens defocus when an aperture is set.
    pub fn pixel_ray(&self, rng: &mut RngSource, pos: &CameraPosition, x: usize, jx: i64,
        y: usize, jy: i64) -> (r: Ray)
        requires
            camera_wf(*self),
            pos_wf(*pos),
            x < self.dimm.width,
            y < self.dimm.height,
            0 <= jx < FP_ONE as int,
            0 <= jy < FP_ONE as int,
        ensures
            ray_wf(r@),
            self.lens_radius is None ==> r@.orig == pos.origin@ && r@.dir == ({
                let d = cam_ray_dir(*self, *pos, x as int, jx as int, y as int, jy as int);
                if d != sv_zero() {
                    d
                } else {
                    crate::vec3::sv_neg(pos.w@)
                }
            }),
            self.lens_radius is Some ==> {
                &&& -(4 * FP_ONE as int) <= r@.orig.x - pos.origin@.x <= 4 * FP_ONE as int
                &&& -(4 * FP_ONE as int) <= r@.orig.y - pos.origin@.y <= 4 * FP_ONE as int
                &&& -(4 * FP_ONE as int) <= r@.orig.z - pos.origin@.z <= 4 * FP_ONE as int
            },
    {
        let xp = pixel_fraction(x, jx, self.dimm.width);
        let yp = pixel_fraction(y, jy, self.dimm.height);
        // Viewport spans scaled by the focus distance.
        let hspan = scaled_span(self.width, pos.focus_length);
        let vspan = scaled_span(self.height, pos.focus_length);
        let fspan = scaled_span(self.focal_length, pos.focus_length);
        let horizontal = axis_scaled(&pos.u, hspan, Ghost(131072), Ghost(0x200_0000));
        let vertical = axis_scaled(&pos.v, vspan, Ghost(131072), Ghost(0x200_0000));
        let forward = axis_scaled(&pos.w, fspan, Ghost(131072), Ghost(0x200_0000));
        let half_h = axis_scaled_half(&horizontal);
        let half_v = axis_scaled_half(&vertical);
        let lower_left = pos.origin.0.sub(&half_h).sub(&half_v).sub(&forward);
        let offset = match self.lens_radius {
            Some(lr) => {
                let (rx, ry) = rng.in_unit_disk(lr);
                let ou = axis_scaled(&pos.u, rx, Ghost(131072), Ghost(65536));
                let ov = axis_scaled(&pos.v, ry, Ghost(131072), Ghost(65536));
                proof {
                    lemma_scale_result(pos.u@.x, rx as int, 131072, 65536, 131072);
                    lemma_scale_result(pos.u@.y, rx as int, 131072, 65536, 131072);
                    lemma_scale_result(pos.u@.z, rx as int, 131072, 65536, 131072);
                    lemma_scale_result(pos.v@.x, ry as int, 131072, 65536, 131072);
                    lemma_scale_result(pos.v@.y, ry as int, 131072, 65536, 131072);
                    lemma_scale_result(pos.v@.z, ry as int, 131072, 65536, 131072);
                }
                ou.add(&ov)
            },
            None => Vec3::new(0, 0, 0),
        };
        proof {
            if self.lens_radius is None {
                assert(offset@ == sv_zero());
            } else {
                assert(crate::vec3::sv_bounded(offset@, 4 * FP_ONE as int));
            }
        }
        let along_h = axis_scaled(&horizontal, xp, Ghost(0x400_0000), Ghost(65536));
        let along_v = axis_scaled(&vertical, yp, Ghost(0x400_0000), Ghost(65536));
        let tip = lower_left.add(&along_h).add(&along_v);
        let direction = tip.sub(&pos.origin.0).sub(&offset);
        let direction = if direction.near_zero() {
            pos.w.neg()
        } else {
            direction
        };
        let orig = Point(pos.origin.0.add(&offset));
        Ray { orig, direction }
    }
}

/// The fractional position of a jittered pixel inside the image, in
/// `[0, FP_ONE]`.
fn pixel_fraction(x: usize, jx: i64, extent: usize) -> (r: i64)
    requires
        x < extent,
        1 <= extent <= 0x4000,
        0 <= jx < FP_ONE as int,
    ensures
        0 <= r <= FP_ONE as int,
        r == cam_fraction(x as int, jx as int, extent as int),
{
    proof {
        assert((x as int) * 65536 + jx <= (extent as int) * 65536) by (nonlinear_arith)
            requires
                x < extent,
                0 <= jx < 65536,
                FP_ONE == 65536,
        ;
        assert((x as int) * 65536 >= 0) by (nonlinear_arith)
            requires
                x >= 0,
        ;
        crate::fixed::lemma_floor_div_shrink((x as int) * 65536 + jx, extent as int, 65536);
        vstd::arithmetic::div_mod::lemma_div_pos_is_pos((x as int) * 65536 + jx,
            extent as int);
    }
    div_floor_i128((x as i128) * (FP_ONE as i128) + (jx as i128), extent as i128) as i64
}

/// A viewport span times the focus distance, rescaled; within 512 units.
fn scaled_span(span: i64, focus: i64) -> (r: i64)
    requires
        0 <= span <= 8 * FP_ONE as int,
        1 <= focus <= 64 * FP_ONE as int,
    ensures
        0 <= r <= 0x200_0000,
        r == cam_span(span as int, focus as int),
{
    proof {
        mul_bound(span as int, focus as int, 524288, 4194304);
        crate::fixed::lemma_floor_div_shrink(span as int * focus as int, FP_ONE as int,
            0x200_0000);
        vstd::arithmetic::div_mod::lemma_div_pos_is_pos(span as int * focus as int,
            FP_ONE as int);
        assert(span as int * focus as int >= 0) by (nonlinear_arith)
            requires
                span >= 0,
                focus >= 1,
        ;
    }
    div_floor_i128((span as i128) * (focus as i128), FP_ONE as i128) as i64
}

/// A vector scaled by a fixed-point factor, under ghost magnitude bounds
/// whose product keeps the result within the viewport range.
fn axis_scaled(axis: &Vec3, s: i64, Ghost(ka): Ghost<int>, Ghost(ks): Ghost<int>) -> (r: Vec3)
    requires
        0 <= ka <= 0x400_0000,
        0 <= ks <= 0x200_0000,
        ka * ks <= 0x400_0000_0000,
        sv_bounded(axis@, ka),
        -ks <= s <= ks,
    ensures
        r@ == crate::vec3::sv_scale(axis@, s as int),
        sv_bounded(r@, 0x400_0000),
{
    proof {
        lemma_scale_fits(axis@.x, s as int, ka, ks);
        lemma_scale_fits(axis@.y, s as int, ka, ks);
        lemma_scale_fits(axis@.z, s as int, ka, ks);
        lemma_scale_result(axis@.x, s as int, ka, ks, 0x400_0000);
        lemma_scale_result(axis@.y, s as int, ka, ks, 0x400_0000);
        lemma_scale_result(axis@.z, s as int, ka, ks, 0x400_0000);
    }
    axis.scale(s)
}

/// Half of a span vector.
fn axis_scaled_half(v: &Vec3) -> (r: Vec3)
    requires
        sv_bounded(v@, 0x400_0000),
    ensures
        r@ == crate::vec3::sv_scale(v@, FP_ONE as int / 2),
        sv_bounded(r@, 0x400_0000),
{
    proof {
        lemma_scale_fits(v@.x, (FP_ONE / 2) as int, 0x400_0000, 32768);
        lemma_scale_fits(v@.y, (FP_ONE / 2) as int, 0x400_0000, 32768);
        lemma_scale_fits(v@.z, (FP_ONE / 2) as int, 0x400_0000, 32768);
        lemma_scale_result(v@.x, (FP_ONE / 2) as int, 0x400_0000, 32768, 0x400_0000);
        lemma_scale_result(v@.y, (FP_ONE / 2) as int, 0x400_0000, 32768, 0x400_0000);
        lemma_scale_result(v@.z, (FP_ONE / 2) as int, 0x400_0000, 32768, 0x400_0000);
    }
    v.scale(FP_ONE / 2)
}

} // verus!

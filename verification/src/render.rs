//! The path integrator and the frame driver.
//!
//! The integrator is an iterative loop whose bounce budget strictly
//! decreases — Verus checks its termination — and whose accumulation is
//! stated exactly: an empty scene returns precisely the sky's color.

use vstd::prelude::*;

use crate::bvh::BboxTreeWorkspace;
use crate::fixed::FP_ONE;
use crate::material::emit_limit;
use crate::object::{geo_cands, lemma_geo_cands_wf};
use crate::rng::RngSource;
use crate::scene::{scene_wf, sky_value, Scene};
use crate::sphere::ray_wf;
use crate::vec3::{sv_bounded, sv_mul, sv_zero, Color, Ray, VEC_LIMIT};

verus! {

/// The self-intersection guard: queries start this far along the ray.
pub const RAY_EPS: i64 = 65;

/// The far end of every query window.
pub const RAY_FAR: i64 = 0x4000_0000;

/// Largest accepted bounce budget.
pub const MAX_DEPTH_LIMIT: usize = 4096;

/// Per-pixel render settings.
#[derive(Clone, Copy, Debug, PartialEq, Eq, Structural)]
pub struct RenderSettings {
    pub samples: usize,
    pub max_reflect: usize,
    pub single_threaded: bool,
}

/// One frame to render: optics, placement and scene, by reference.
pub struct Frame<'a> {
    pub camera: &'a crate::camera::Camera,
    pub pos: &'a crate::camera::CameraPosition,
    pub scene: &'a Scene,
}

/// The color carried back along one ray: emitted light accumulated along
/// the scattering path, within `max_depth` bounces.
pub fn ray_color(rng: &mut RngSource, hit_stack: &mut BboxTreeWorkspace, incoming: &Ray,
    scene: &Scene, max_depth: usize) -> (res: Color)
    requires
        scene_wf(*scene),
        ray_wf(incoming@),
        max_depth <= MAX_DEPTH_LIMIT,
    ensures
        sv_bounded(res@, VEC_LIMIT as int),
        max_depth == 0 ==> res@ == sv_zero(),
        scene.tree.leaves@.len() == 0 && max_depth > 0 ==> res@ == sky_value(scene.skybox,
            incoming@),
        max_depth > 0 && crate::hit::best_of(crate::bvh::all_cands(scene.tree.leaves@,
            incoming@), RAY_EPS as int, RAY_FAR as int) is None ==> res@ == sky_value(
            scene.skybox, incoming@),
{
    let ghost miss_case = max_depth > 0 && crate::hit::best_of(crate::bvh::all_cands(
        scene.tree.leaves@, incoming@), RAY_EPS as int, RAY_FAR as int) is None;
    let mut ray: Ray = *incoming;
    let mut attenuation: Color = Color::ones();
    let mut emitted: Color = Color::black();
    let mut depth: usize = max_depth;
    let ghost k_step: int = 16 * emit_limit();
    while depth > 0
        invariant
            scene_wf(*scene),
            ray_wf(ray@),
            depth <= max_depth <= MAX_DEPTH_LIMIT,
            sv_bounded(attenuation@, FP_ONE as int),
            sv_bounded(emitted@, (max_depth - depth) * k_step),
            k_step == 16 * emit_limit(),
            miss_case == (max_depth > 0 && crate::hit::best_of(crate::bvh::all_cands(
                scene.tree.leaves@, incoming@), RAY_EPS as int, RAY_FAR as int) is None),
            scene.tree.leaves@.len() == 0 && max_depth > 0 ==> depth == max_depth
                && emitted@ == sv_zero() && attenuation@ == crate::vec3::sv_ones() && ray
                == *incoming,
            miss_case ==> depth == max_depth && emitted@ == sv_zero() && attenuation@
                == crate::vec3::sv_ones() && ray == *incoming,
        decreases depth,
    {
        proof {
            lemma_emit_capacity(max_depth as int, depth as int);
        }
        let hit = scene.hit_workspace(hit_stack, &ray, RAY_EPS, RAY_FAR);
        if scene.tree.leaves.len() == 0 {
            proof {
                crate::bvh::lemma_prefix_props(scene.tree.leaves@, ray@, RAY_EPS as int,
                    RAY_FAR as int, 0);
            }
        }
        match hit {
            Some((idx, rec)) => {
                proof {
                    lemma_geo_cands_wf(scene.tree.leaves@[idx as int], ray@);
                    let ci = choose|i: int| 0 <= i < geo_cands(scene.tree.leaves@[
                        idx as int], ray@).len() && geo_cands(scene.tree.leaves@[idx as int],
                        ray@)[i] == rec@;
                }
                let mat = &scene.materials[idx];
                if let Some(e) = mat.emitted(&ray, &rec) {
                    proof {
                        mul_fits_emit(attenuation@, e@);
                    }
                    let glow = Color(attenuation.0.mul(&e.0));
                    emitted = Color(emitted.0.add(&glow.0));
                }
                match mat.scatter(rng, &ray, &rec) {
                    Some(sc) => {
                        proof {
                            mul_fits_att(attenuation@, sc.attenuation@);
                        }
                        attenuation = Color(attenuation.0.mul(&sc.attenuation.0));
                        ray = sc.direction;
                    },
                    None => {
                        return emitted;
                    },
                }
            },
            None => {
                let sky = scene.skybox.background(&ray);
                proof {
                    mul_fits_emit(attenuation@, sky@);
                    if (scene.tree.leaves@.len() == 0 || miss_case) && depth == max_depth {
                        lemma_ones_mul(sky@);
                        assert(ray == *incoming);
                    }
                }
                let glow = Color(attenuation.0.mul(&sky.0));
                emitted = Color(emitted.0.add(&glow.0));
                return emitted;
            },
        }
        depth = depth - 1;
    }
    emitted
}

/// The accumulated light always has room for one more bounce's worth.
proof fn lemma_emit_capacity(max_depth: int, depth: int)
    requires
        0 < depth <= max_depth <= MAX_DEPTH_LIMIT as int,
    ensures
        (max_depth - depth) * (16 * emit_limit()) + 16 * emit_limit() <= VEC_LIMIT as int,
        (max_depth - depth) * (16 * emit_limit()) <= VEC_LIMIT as int,
        (max_depth - depth) * (16 * emit_limit()) + 16 * emit_limit() <= (max_depth - (depth
            - 1)) * (16 * emit_limit()),
{
    assert((max_depth - depth) * (16 * emit_limit()) + 16 * emit_limit() <= VEC_LIMIT as int
        && (max_depth - depth) * (16 * emit_limit()) <= VEC_LIMIT as int && (max_depth
        - depth) * (16 * emit_limit()) + 16 * emit_limit() <= (max_depth - (depth - 1)) * (16
        * emit_limit())) by (nonlinear_arith)
        requires
            0 < depth <= max_depth <= 4096,
            emit_limit() == 0x1000_0000,
            VEC_LIMIT == 0x1000_0000_0000,
    ;
}

/// Attenuation times an emissive color fits the componentwise product.
proof fn mul_fits_emit(a: crate::vec3::V3, e: crate::vec3::V3)
    requires
        sv_bounded(a, FP_ONE as int),
        sv_bounded(e, 16 * emit_limit()),
    ensures
        -((VEC_LIMIT as int) * FP_ONE) <= a.x * e.x <= (VEC_LIMIT as int) * FP_ONE,
        -((VEC_LIMIT as int) * FP_ONE) <= a.y * e.y <= (VEC_LIMIT as int) * FP_ONE,
        -((VEC_LIMIT as int) * FP_ONE) <= a.z * e.z <= (VEC_LIMIT as int) * FP_ONE,
        sv_bounded(sv_mul(a, e), 16 * emit_limit()),
{
    crate::vec3::lemma_scale_fits(a.x, e.x, 65536, 0x1_0000_0000);
    crate::vec3::lemma_scale_fits(a.y, e.y, 65536, 0x1_0000_0000);
    crate::vec3::lemma_scale_fits(a.z, e.z, 65536, 0x1_0000_0000);
    crate::vec3::lemma_scale_result(a.x, e.x, 65536, 0x1_0000_0000, 0x1_0000_0000);
    crate::vec3::lemma_scale_result(a.y, e.y, 65536, 0x1_0000_0000, 0x1_0000_0000);
    crate::vec3::lemma_scale_result(a.z, e.z, 65536, 0x1_0000_0000, 0x1_0000_0000);
    assert(sv_mul(a, e).x == crate::fixed::floor_div(a.x * e.x, FP_ONE as int));
    assert(sv_mul(a, e).y == crate::fixed::floor_div(a.y * e.y, FP_ONE as int));
    assert(sv_mul(a, e).z == crate::fixed::floor_div(a.z * e.z, FP_ONE as int));
}

/// Attenuation times a scatter attenuation stays within one.
proof fn mul_fits_att(a: crate::vec3::V3, b: crate::vec3::V3)
    requires
        sv_bounded(a, FP_ONE as int),
        sv_bounded(b, FP_ONE as int),
    ensures
        -((VEC_LIMIT as int) * FP_ONE) <= a.x * b.x <= (VEC_LIMIT as int) * FP_ONE,
        -((VEC_LIMIT as int) * FP_ONE) <= a.y * b.y <= (VEC_LIMIT as int) * FP_ONE,
        -((VEC_LIMIT as int) * FP_ONE) <= a.z * b.z <= (VEC_LIMIT as int) * FP_ONE,
        sv_bounded(sv_mul(a, b), FP_ONE as int),
{
    crate::vec3::lemma_scale_fits(a.x, b.x, 65536, 65536);
    crate::vec3::lemma_scale_fits(a.y, b.y, 65536, 65536);
    crate::vec3::lemma_scale_fits(a.z, b.z, 65536, 65536);
    crate::vec3::lemma_scale_result(a.x, b.x, 65536, 65536, 65536);
    crate::vec3::lemma_scale_result(a.y, b.y, 65536, 65536, 65536);
    crate::vec3::lemma_scale_result(a.z, b.z, 65536, 65536, 65536);
    assert(sv_mul(a, b).x == crate::fixed::floor_div(a.x * b.x, FP_ONE as int));
    assert(sv_mul(a, b).y == crate::fixed::floor_div(a.y * b.y, FP_ONE as int));
    assert(sv_mul(a, b).z == crate::fixed::floor_div(a.z * b.z, FP_ONE as int));
}

/// Multiplying a color by full white keeps it.
proof fn lemma_ones_mul(c: crate::vec3::V3)
    ensures
        sv_mul(crate::vec3::sv_ones(), c) == c,
{
    let f = FP_ONE as int;
    vstd::arithmetic::div_mod::lemma_div_multiples_vanish(c.x, f);
    vstd::arithmetic::div_mod::lemma_div_multiples_vanish(c.y, f);
    vstd::arithmetic::div_mod::lemma_div_multiples_vanish(c.z, f);
    assert(f * c.x == f * c.x && f * c.y == f * c.y && f * c.z == f * c.z);
}

/// Renders one scanline: for every pixel, the average-ready sum of sample
/// colors along jittered camera rays.
pub fn render_scanline(frame: &Frame<'_>, rng: &mut RngSource, samples: usize,
    max_depth: usize, hit_stack: &mut BboxTreeWorkspace, line_idx: usize, width: usize)
    -> (row: Vec<Color>)
    requires
        scene_wf(*frame.scene),
        crate::camera::camera_wf(*frame.camera),
        crate::camera::pos_wf(*frame.pos),
        samples <= 0x10000,
        max_depth <= MAX_DEPTH_LIMIT,
        width == frame.camera.dimm.width,
        line_idx < frame.camera.dimm.height,
    ensures
        row@.len() == width,
        forall|i: int| 0 <= i < row@.len() ==> sv_bounded((#[trigger] row@[i])@,
            (samples as int) * (VEC_LIMIT as int)),
        frame.scene.tree.leaves@.len() == 0 && max_depth > 0 && frame.scene.skybox is Flat
            ==> forall|i: int| 0 <= i < row@.len() ==> (#[trigger] row@[i])@
            == crate::vec3::sv_nscale(samples as int, frame.scene.skybox->Flat_0@),
{
    let ghost flat_case = frame.scene.tree.leaves@.len() == 0 && max_depth > 0
        && frame.scene.skybox is Flat;
    let mut row: Vec<Color> = Vec::new();
    let mut idx: usize = 0;
    while idx < width
        invariant
            scene_wf(*frame.scene),
            crate::camera::camera_wf(*frame.camera),
            crate::camera::pos_wf(*frame.pos),
            samples <= 0x10000,
            max_depth <= MAX_DEPTH_LIMIT,
            width == frame.camera.dimm.width,
            line_idx < frame.camera.dimm.height,
            idx <= width,
            row@.len() == idx,
            flat_case == (frame.scene.tree.leaves@.len() == 0 && max_depth > 0
                && frame.scene.skybox is Flat),
            forall|i: int| 0 <= i < row@.len() ==> sv_bounded((#[trigger] row@[i])@,
                (samples as int) * (VEC_LIMIT as int)),
            flat_case ==> forall|i: int| 0 <= i < row@.len() ==> (#[trigger] row@[i])@
                == crate::vec3::sv_nscale(samples as int, frame.scene.skybox->Flat_0@),
        decreases width - idx,
    {
        let mut c = Color::black();
        let mut s: usize = 0;
        while s < samples
            invariant
                scene_wf(*frame.scene),
                crate::camera::camera_wf(*frame.camera),
                crate::camera::pos_wf(*frame.pos),
                samples <= 0x10000,
                max_depth <= MAX_DEPTH_LIMIT,
                width == frame.camera.dimm.width,
                line_idx < frame.camera.dimm.height,
                idx < width,
                s <= samples,
                sv_bounded(c@, (s as int) * (VEC_LIMIT as int)),
                flat_case == (frame.scene.tree.leaves@.len() == 0 && max_depth > 0
                    && frame.scene.skybox is Flat),
                flat_case ==> c@ == crate::vec3::sv_nscale(s as int,
                    frame.scene.skybox->Flat_0@),
            decreases samples - s,
        {
            let jx = rng.unit_scalar();
            let jy = rng.unit_scalar();
            let r = frame.camera.pixel_ray(rng, frame.pos, idx, jx, line_idx, jy);
            let sample = ray_color(rng, hit_stack, &r, frame.scene, max_depth);
            proof {
                lemma_sum_capacity(s as int, samples as int);
                if flat_case {
                    assert(sample@ == frame.scene.skybox->Flat_0@);
                    lemma_nscale_step(s as int, frame.scene.skybox->Flat_0@);
                }
            }
            c = Color(c.0.add(&sample.0));
            s = s + 1;
        }
        row.push(c);
        idx = idx + 1;
    }
    row
}

/// One more exact copy of a color extends the replicated sum.
proof fn lemma_nscale_step(n: int, c: crate::vec3::V3)
    ensures
        crate::vec3::sv_add(crate::vec3::sv_nscale(n, c), c) == crate::vec3::sv_nscale(n + 1,
            c),
{
    assert(n * c.x + c.x == (n + 1) * c.x && n * c.y + c.y == (n + 1) * c.y && n * c.z + c.z
        == (n + 1) * c.z) by (nonlinear_arith);
}

/// The running per-pixel sum stays within what addition accepts.
proof fn lemma_sum_capacity(s: int, samples: int)
    requires
        0 <= s < samples <= 0x10000,
    ensures
        s * (VEC_LIMIT as int) + VEC_LIMIT as int <= 0x1000_0000_0000_0000,
        s * (VEC_LIMIT as int) <= 0x1000_0000_0000_0000,
        s * (VEC_LIMIT as int) + VEC_LIMIT as int <= (s + 1) * (VEC_LIMIT as int),
{
    assert(s * (VEC_LIMIT as int) + VEC_LIMIT as int <= 0x1000_0000_0000_0000 && s
        * (VEC_LIMIT as int) <= 0x1000_0000_0000_0000 && s * (VEC_LIMIT as int)
        + VEC_LIMIT as int <= (s + 1) * (VEC_LIMIT as int)) by (nonlinear_arith)
        requires
            0 <= s < samples <= 0x10000,
            VEC_LIMIT == 0x1000_0000_0000,
    ;
}

/// An accumulated, unnormalized framebuffer: one color sum per pixel, one
/// scanline per row.
pub struct Image {
    pub dimm: crate::camera::Dimmensions,
    pub data: Vec<Color>,
    pub samples: usize,
}

impl Image {
    /// An all-black framebuffer of the given dimensions.
    pub fn from_dimm(dimm: crate::camera::Dimmensions) -> (r: Image)
        requires
            dimm.width * dimm.height <= 0x1000_0000,
        ensures
            r.dimm == dimm,
            r.data@.len() == dimm.width * dimm.height,
            r.samples == 1,
    {
        let total = dimm.width * dimm.height;
        let mut data: Vec<Color> = Vec::new();
        let mut i: usize = 0;
        while i < total
            invariant
                i <= total,
                data@.len() == i,
            decreases total - i,
        {
            data.push(Color::black());
            i = i + 1;
        }
        Image { dimm, data, samples: 1 }
    }
}

/// Renders a whole frame on the calling thread, scanline by scanline; a
/// sample count of zero is clamped to one.
pub fn render_frame(settings: &RenderSettings, scene: &Scene, camera: &crate::camera::Camera,
    pos: &crate::camera::CameraPosition, rng: &mut RngSource) -> (img: Image)
    requires
        scene_wf(*scene),
        crate::camera::camera_wf(*camera),
        crate::camera::pos_wf(*pos),
        settings.samples <= 0x10000,
        settings.max_reflect <= MAX_DEPTH_LIMIT,
        camera.dimm.width * camera.dimm.height <= 0x1000_0000,
    ensures
        img.dimm == camera.dimm,
        img.data@.len() == camera.dimm.width * camera.dimm.height,
        img.samples == if settings.samples == 0 { 1int } else { settings.samples as int },
        forall|i: int| 0 <= i < img.data@.len() ==> sv_bounded((#[trigger] img.data@[i])@,
            (img.samples as int) * (VEC_LIMIT as int)),
        scene.tree.leaves@.len() == 0 && settings.max_reflect > 0 && scene.skybox is Flat
            ==> forall|i: int| 0 <= i < img.data@.len() ==> (#[trigger] img.data@[i])@
            == crate::vec3::sv_nscale(img.samples as int, scene.skybox->Flat_0@),
{
    let samples = if settings.samples == 0 {
        1
    } else {
        settings.samples
    };
    let ghost flat_case = scene.tree.leaves@.len() == 0 && settings.max_reflect > 0
        && scene.skybox is Flat;
    let mut img = Image::from_dimm(camera.dimm);
    img.samples = samples;
    let mut data: Vec<Color> = Vec::new();
    let mut hit_stack = BboxTreeWorkspace::default();
    let frame = Frame { camera, pos, scene };
    let mut line: usize = 0;
    while line < camera.dimm.height
        invariant
            scene_wf(*scene),
            crate::camera::camera_wf(*camera),
            crate::camera::pos_wf(*pos),
            samples <= 0x10000,
            settings.max_reflect <= MAX_DEPTH_LIMIT,
            camera.dimm.width * camera.dimm.height <= 0x1000_0000,
            frame.camera == camera && frame.pos == pos && frame.scene == scene,
            line <= camera.dimm.height,
            data@.len() == line * camera.dimm.width,
            flat_case == (scene.tree.leaves@.len() == 0 && settings.max_reflect > 0
                && scene.skybox is Flat),
            forall|i: int| 0 <= i < data@.len() ==> sv_bounded((#[trigger] data@[i])@,
                (samples as int) * (VEC_LIMIT as int)),
            flat_case ==> forall|i: int| 0 <= i < data@.len() ==> (#[trigger] data@[i])@
                == crate::vec3::sv_nscale(samples as int, scene.skybox->Flat_0@),
        decreases camera.dimm.height - line,
    {
        let row = render_scanline(&frame, rng, samples, settings.max_reflect, &mut hit_stack,
            line, camera.dimm.width);
        let mut k: usize = 0;
        proof {
            lemma_row_capacity(line as int, camera.dimm.width as int,
                camera.dimm.height as int);
        }
        while k < row.len()
            invariant
                k <= row@.len(),
                row@.len() == camera.dimm.width,
                data@.len() == line * camera.dimm.width + k,
                (line + 1) * camera.dimm.width <= 0x1000_0000,
                line * camera.dimm.width + camera.dimm.width <= (line + 1)
                    * camera.dimm.width,
                samples <= 0x10000,
                flat_case == (scene.tree.leaves@.len() == 0 && settings.max_reflect > 0
                    && scene.skybox is Flat),
                forall|i: int| 0 <= i < row@.len() ==> sv_bounded((#[trigger] row@[i])@,
                    (samples as int) * (VEC_LIMIT as int)),
                flat_case ==> forall|i: int| 0 <= i < row@.len() ==> (#[trigger] row@[i])@
                    == crate::vec3::sv_nscale(samples as int, scene.skybox->Flat_0@),
                forall|i: int| 0 <= i < data@.len() ==> sv_bounded((#[trigger] data@[i])@,
                    (samples as int) * (VEC_LIMIT as int)),
                flat_case ==> forall|i: int| 0 <= i < data@.len() ==> (#[trigger] data@[i])@
                    == crate::vec3::sv_nscale(samples as int, scene.skybox->Flat_0@),
            decreases row@.len() - k,
        {
            data.push(row[k]);
            k = k + 1;
        }
        proof {
            lemma_row_step(line as int, camera.dimm.width as int);
        }
        line = line + 1;
    }
    proof {
        lemma_total_pixels(camera.dimm.height as int, camera.dimm.width as int);
    }
    img.data = data;
    img
}

proof fn lemma_row_capacity(line: int, width: int, height: int)
    requires
        0 <= line < height,
        0 <= width,
        width * height <= 0x1000_0000,
    ensures
        (line + 1) * width <= 0x1000_0000,
        line * width + width <= (line + 1) * width,
{
    assert((line + 1) * width <= 0x1000_0000 && line * width + width <= (line + 1) * width)
        by (nonlinear_arith)
        requires
            0 <= line < height,
            0 <= width,
            width * height <= 0x1000_0000,
    ;
}

proof fn lemma_row_step(line: int, width: int)
    ensures
        line * width + width == (line + 1) * width,
{
    assert(line * width + width == (line + 1) * width) by (nonlinear_arith);
}

proof fn lemma_total_pixels(height: int, width: int)
    ensures
        height * width == width * height,
{
    assert(height * width == width * height) by (nonlinear_arith);
}

} // verus!

//! Materials, textures, the camera, the integrator and the error cases.

use raytracer::bvh::BboxTreeWorkspace;
use raytracer::camera::{AspectRatio, CameraAspectRatio, CameraBuilder, Dimmensions};
use raytracer::error::RenderError;
use raytracer::fixed::FP_ONE;
use raytracer::material::{
    Dielectric, DiffuseLight, FairyLight, Lambertian, MaterialType, Metal,
};
use raytracer::object::GeometricObject;
use raytracer::rect::xz_rect;
use raytracer::render::{ray_color, RenderSettings};
use raytracer::rng::RngSource;
use raytracer::scene::{SceneBuilder, SkyBox};
use raytracer::scenes::render_demo;
use raytracer::sphere::Sphere;
use raytracer::texture::{ConstantTexture, ImageTexture, SceneTexture};
use raytracer::vec3::{Color, Point, Ray, Vec3};

fn fp(units: i64) -> i64 {
    units * FP_ONE
}

fn solid(r: i64, g: i64, b: i64) -> SceneTexture {
    SceneTexture::Solid(ConstantTexture {
        color: Color(Vec3::new(r, g, b)),
    })
}

/// A record on the floor plane, hit from straight above.
fn floor_hit() -> (Ray, raytracer::hit::HitRecord) {
    let floor = xz_rect(-fp(5), fp(5), -fp(5), fp(5), 0);
    let ray = Ray::new(Point(Vec3::new(0, fp(3), 0)), Vec3::new(0, -fp(1), 0));
    let rec = floor.hit(&ray, 0, fp(16000)).expect("the ray falls onto the floor");
    (ray, rec)
}

#[test]
fn lambertian_never_scatters_to_zero() {
    let (ray, rec) = floor_hit();
    let mat = MaterialType::Lambertian(Lambertian::new(solid(fp(1) / 2, fp(1) / 2,
        fp(1) / 2)));
    for seed in 0..200u64 {
        let mut rng = RngSource::from_seed(seed);
        let sc = mat.scatter(&mut rng, &ray, &rec).expect("a lambertian always scatters");
        let d = sc.direction.direction;
        assert!(d.x != 0 || d.y != 0 || d.z != 0);
    }
}

#[test]
fn metal_with_zero_fuzz_is_a_mirror() {
    let (ray, rec) = floor_hit();
    let mat = MaterialType::Metal(Metal::new(Color(Vec3::new(fp(1) / 2, fp(1) / 2,
        fp(1) / 2)), Some(0)));
    let mut rng1 = RngSource::from_seed(1);
    let mut rng2 = RngSource::from_seed(999);
    let s1 = mat.scatter(&mut rng1, &ray, &rec).unwrap();
    let s2 = mat.scatter(&mut rng2, &ray, &rec).unwrap();
    // reflected = incoming - 2 (incoming . normal) normal, on the unit
    // incoming (0,-1,0) against the upward floor normal: straight back up,
    // independent of the generator's state.
    assert_eq!(s1.direction.direction, Vec3::new(0, FP_ONE, 0));
    assert_eq!(s2.direction.direction, Vec3::new(0, FP_ONE, 0));
    assert_eq!(s1.attenuation, Color(Vec3::new(fp(1) / 2, fp(1) / 2, fp(1) / 2)));
}

#[test]
fn dielectric_identity_index_passes_straight_through() {
    let (ray, rec) = floor_hit();
    let mat = MaterialType::Dielectric(Dielectric { ir: FP_ONE });
    for seed in 0..20u64 {
        let mut rng = RngSource::from_seed(seed);
        let sc = mat.scatter(&mut rng, &ray, &rec).unwrap();
        // Unit incoming direction continues unchanged: no bend between
        // optically identical media at normal incidence.
        assert_eq!(sc.direction.direction, Vec3::new(0, -FP_ONE, 0));
        assert_eq!(sc.attenuation, Color(Vec3::new(FP_ONE, FP_ONE, FP_ONE)));
    }
}

#[test]
fn metal_fuzz_is_clamped_both_ways() {
    // The fuzz radius is clamped into [0, 1]: a negative request becomes a
    // perfect mirror, an oversized one a fully fuzzed surface.
    let below = Metal::new(Color(Vec3::new(0, 0, 0)), Some(-fp(3)));
    assert_eq!(below.fuzz, 0);
    let above = Metal::new(Color(Vec3::new(0, 0, 0)), Some(fp(7)));
    assert_eq!(above.fuzz, FP_ONE);
    let none = Metal::new(Color(Vec3::new(0, 0, 0)), None);
    assert_eq!(none.fuzz, 0);
}

#[test]
fn marble_texture_is_deterministic_and_bounded() {
    let mut rng = RngSource::from_seed(21);
    let tex = raytracer::perlin::NoiseTexture::scale(&mut rng, 4 * FP_ONE);
    let mut last = None;
    for step in 0..8i64 {
        let p = Point(Vec3::new(step * 13000, step * 7000, step * 29000));
        let a = tex.value(&p);
        let b = tex.value(&p);
        // Same tables, same point: the same gray on every channel, inside
        // [0, 1].
        assert_eq!(a, b);
        assert_eq!(a.0.x, a.0.y);
        assert_eq!(a.0.y, a.0.z);
        assert!((0..=FP_ONE).contains(&a.0.x));
        last = Some(a);
    }
    assert!(last.is_some());
}

#[test]
fn fairy_light_emission_scales_with_incidence() {
    let (ray, rec) = floor_hit();
    let mat = MaterialType::FairyLight(FairyLight::new(solid(fp(2), fp(2), fp(2))));
    let e = mat.emitted(&ray, &rec).expect("a fairy light emits");
    // Straight-on unit incidence: dot(normal, -direction) / |direction| is
    // exactly one, so the emission equals the texture color.
    assert_eq!(e, Color(Vec3::new(fp(2), fp(2), fp(2))));
}

#[test]
fn diffuse_light_emits_and_never_scatters() {
    let (ray, rec) = floor_hit();
    let mat = MaterialType::DiffuseLight(DiffuseLight::new(solid(fp(4), fp(4), fp(4))));
    let mut rng = RngSource::from_seed(7);
    assert!(mat.scatter(&mut rng, &ray, &rec).is_none());
    let e = mat.emitted(&ray, &rec).expect("a light emits");
    assert_eq!(e, Color(Vec3::new(fp(4), fp(4), fp(4))));
}

#[test]
fn fairy_light_new_keeps_its_texture() {
    let f = FairyLight::new(solid(fp(2), fp(2), fp(2)));
    match f.albedo {
        SceneTexture::Solid(c) => assert_eq!(c.color, Color(Vec3::new(fp(2), fp(2), fp(2)))),
        _ => panic!("expected the solid texture back"),
    }
}

#[test]
fn checker_texture_alternates() {
    let tex = SceneTexture::Checker {
        size: FP_ONE,
        odd: Box::new(solid(FP_ONE, 0, 0)),
        even: Box::new(solid(0, FP_ONE, 0)),
    };
    // Angles below pi fall in the even half-turn on every axis.
    let a = tex.value(0, 0, &Point(Vec3::new(fp(1), fp(1), fp(1))));
    // Stepping one axis past pi flips the parity and the arm.
    let b = tex.value(0, 0, &Point(Vec3::new(fp(4), fp(1), fp(1))));
    assert_eq!(a, Color(Vec3::new(0, FP_ONE, 0)));
    assert_eq!(b, Color(Vec3::new(FP_ONE, 0, 0)));
}

#[test]
fn image_texture_reads_pixels_back() {
    // A two-pixel image: pure red on the left, pure blue on the right.
    let mut img = image::RgbImage::new(2, 1);
    img.put_pixel(0, 0, image::Rgb([255, 0, 0]));
    img.put_pixel(1, 0, image::Rgb([0, 0, 255]));
    let mut bytes: Vec<u8> = Vec::new();
    image::DynamicImage::ImageRgb8(img)
        .write_to(&mut std::io::Cursor::new(&mut bytes), image::ImageFormat::Png)
        .unwrap();
    let tex = ImageTexture::load_from_memory(&bytes).expect("a valid png decodes");
    let left = tex.value(0, 0);
    let right = tex.value(FP_ONE, 0);
    assert_eq!(left, Color(Vec3::new(FP_ONE, 0, 0)));
    assert_eq!(right, Color(Vec3::new(0, 0, FP_ONE)));
}

#[test]
fn image_texture_rejects_garbage() {
    let e = ImageTexture::load_from_memory(&[1, 2, 3, 4]).unwrap_err();
    assert_eq!(e, RenderError::TextureDecode);
}

#[test]
fn rng_draws_stay_in_range() {
    let mut rng = RngSource::from_seed(42);
    for _ in 0..100 {
        let v = rng.gen_range_i64(-5, 17);
        assert!((-5..=17).contains(&v));
        let u = rng.unit_scalar();
        assert!((0..FP_ONE).contains(&u));
    }
}

#[test]
fn rng_is_deterministic_per_seed() {
    let mut a = RngSource::from_seed(9);
    let mut b = RngSource::from_seed(9);
    for _ in 0..20 {
        assert_eq!(a.gen_range_i64(0, 1000), b.gen_range_i64(0, 1000));
    }
}

#[test]
fn camera_requires_exactly_two_of_three() {
    let mut under = CameraBuilder::default();
    under.width(640);
    assert_eq!(under.build().unwrap_err(), RenderError::CameraUnderSpecified);
    let over = Dimmensions::from_two_of_three(Some(100), Some(100),
        Some(AspectRatio::Rational(1, 1)));
    assert_eq!(over.unwrap_err(), RenderError::CameraOverSpecified);
    let mut ok = CameraBuilder::default();
    ok.width(640);
    ok.aspect_ratio(AspectRatio::Rational(16, 9));
    let cam = ok.build().expect("two of three were given");
    assert_eq!(cam.dimm.width, 640);
    assert_eq!(cam.dimm.height, 360);
}

#[test]
fn aspect_ratio_table() {
    assert_eq!(CameraAspectRatio::Std3x2.ratio(), (3, 2));
    assert_eq!(CameraAspectRatio::Std16x9.ratio(), (16, 9));
    assert_eq!(CameraAspectRatio::Std16x10.ratio(), (16, 10));
    assert_eq!(CameraAspectRatio::Square.ratio(), (1, 1));
    assert_eq!(CameraAspectRatio::TargetIphone.ratio(), (1170, 2532));
}

#[test]
fn gradient_sky_exact_value() {
    // Looking level: the gradient sits exactly halfway between white and
    // the horizon blue.
    let sky = SkyBox::Above;
    let ray = Ray::new(Point(Vec3::new(0, 0, 0)), Vec3::new(0, 0, -fp(1)));
    let c = sky.background(&ray);
    assert_eq!(c, Color(Vec3::new(49152, 55705, 65536)));
}

#[test]
fn empty_scene_returns_exactly_the_sky() {
    let mut builder = SceneBuilder::default();
    let sky = Color(Vec3::new(fp(2), fp(1), fp(3)));
    builder.set_skybox(SkyBox::Flat(sky));
    let scene = builder.finalize();
    let mut rng = RngSource::from_seed(5);
    let mut stack = BboxTreeWorkspace::default();
    let ray = Ray::new(Point(Vec3::new(0, 0, 0)), Vec3::new(0, 0, -fp(1)));
    for depth in 1..5usize {
        let c = ray_color(&mut rng, &mut stack, &ray, &scene, depth);
        assert_eq!(c, sky);
    }
}

#[test]
fn single_light_sphere_gives_its_own_response() {
    // One emitter directly ahead under a flat sky: the first bounce ends the
    // path, so the pixel is exactly the emitter's light — no sky term.
    let mut builder = SceneBuilder::default();
    builder.set_skybox(SkyBox::Flat(Color(Vec3::new(fp(9), fp(9), fp(9)))));
    builder.add(
        GeometricObject::Sphere(Sphere {
            center: Point(Vec3::new(0, 0, -fp(5))),
            radius: fp(1),
        }),
        MaterialType::DiffuseLight(DiffuseLight::new(solid(fp(3), fp(2), fp(1)))),
    );
    let scene = builder.finalize();
    let mut rng = RngSource::from_seed(5);
    let mut stack = BboxTreeWorkspace::default();
    let ray = Ray::new(Point(Vec3::new(0, 0, 0)), Vec3::new(0, 0, -fp(1)));
    let c = ray_color(&mut rng, &mut stack, &ray, &scene, 1);
    assert_eq!(c, Color(Vec3::new(fp(3), fp(2), fp(1))));
}

#[test]
fn integrator_finishes_in_a_closed_mirror_box() {
    // A fully reflective closed box: the bounce budget is the only exit.
    let mut builder = SceneBuilder::default();
    builder.set_skybox(SkyBox::Dark);
    let mirror = |b: &mut SceneBuilder, g: GeometricObject| {
        b.add(g, MaterialType::Metal(Metal::new(Color(Vec3::new(fp(1), fp(1), fp(1))),
            Some(0))));
    };
    let s = fp(2);
    mirror(&mut builder, GeometricObject::Rect(xz_rect(-s, s, -s, s, -s)));
    mirror(&mut builder, GeometricObject::Rect(xz_rect(-s, s, -s, s, s)));
    mirror(&mut builder, GeometricObject::Rect(raytracer::rect::xy_rect(-s, s, -s, s, -s)));
    mirror(&mut builder, GeometricObject::Rect(raytracer::rect::xy_rect(-s, s, -s, s, s)));
    mirror(&mut builder, GeometricObject::Rect(raytracer::rect::yz_rect(-s, s, -s, s, -s)));
    mirror(&mut builder, GeometricObject::Rect(raytracer::rect::yz_rect(-s, s, -s, s, s)));
    let scene = builder.finalize();
    let mut rng = RngSource::from_seed(11);
    let mut stack = BboxTreeWorkspace::default();
    let ray = Ray::new(Point(Vec3::new(0, 0, 0)), Vec3::new(13000, -fp(1), 7000));
    let c = ray_color(&mut rng, &mut stack, &ray, &scene, 64);
    // All light is absorbed at the depth cutoff; the point is that the call
    // returns at all, and darkness is the only possible answer.
    assert_eq!(c, Color(Vec3::new(0, 0, 0)));
}

#[test]
fn render_demo_produces_a_framebuffer() {
    let settings = RenderSettings {
        samples: 1,
        max_reflect: 2,
        single_threaded: true,
    };
    let mut rng = RngSource::from_seed(3);
    let img = render_demo(&settings, 3, &mut rng).expect("the demo renders");
    assert_eq!(img.dimm.width, 3);
    assert_eq!(img.dimm.height, 2);
    assert_eq!(img.data.len(), 6);
    assert_eq!(img.samples, 1);
}

#[test]
fn render_settings_zero_samples_clamp_to_one() {
    let settings = RenderSettings {
        samples: 0,
        max_reflect: 1,
        single_threaded: true,
    };
    let mut rng = RngSource::from_seed(3);
    let img = render_demo(&settings, 2, &mut rng).expect("the demo renders");
    assert_eq!(img.samples, 1);
}

#[test]
fn boxset_len_counts_members() {
    let set = raytracer::bvh_build::BoxSet {
        inner: vec![0, 1, 2],
    };
    assert_eq!(set.len(), 3);
}

#[test]
fn error_messages_are_stable() {
    assert_eq!(RenderError::TextureDecode.message(), "could not decode texture image");
    assert!(RenderError::CameraUnderSpecified.message().contains("exactly 2"));
}

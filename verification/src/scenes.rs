//! Ready-made scenes and their render entry points.

use vstd::prelude::*;

use crate::camera::{camera_wf, pos_wf, AspectRatio, Camera, CameraBuilder, CameraPosition};
use crate::error::RenderError;
use crate::fixed::FP_ONE;
use crate::material::{
    Dielectric, DiffuseLight, FairyLight, Lambertian, MaterialType, Metal,
};
use crate::object::{GeometricObject, RectBox};
use crate::rect::{xy_rect, xz_rect, yz_rect};
use crate::render::{render_frame, Image, RenderSettings, MAX_DEPTH_LIMIT};
use crate::rng::RngSource;
use crate::scene::{scene_wf, Scene, SceneBuilder, SkyBox};
use crate::sphere::Sphere;
use crate::texture::{ConstantTexture, ImageTexture, SceneTexture};
use crate::vec3::{Color, Point, Vec3};

verus! {

/// Settings a render entry point accepts.
pub open spec fn settings_ok(s: RenderSettings) -> bool {
    s.samples <= 0x10000 && s.max_reflect <= MAX_DEPTH_LIMIT
}

/// A solid color texture.
fn solid(r: i64, g: i64, b: i64) -> (t: SceneTexture)
    ensures
        t == SceneTexture::Solid(ConstantTexture { color: Color(Vec3 { x: r, y: g, z: b }) }),
{
    SceneTexture::Solid(ConstantTexture { color: Color(Vec3::new(r, g, b)) })
}

/// The checkered ground plane shared by several demo scenes.
pub fn create_ground_checker(scene: &mut SceneBuilder)
    requires
        forall|k: int| 0 <= k < old(scene).objects@.len() ==> crate::scene::sobj_wf(
            #[trigger] old(scene).objects@[k]),
    ensures
        forall|k: int| 0 <= k < final(scene).objects@.len() ==> crate::scene::sobj_wf(
            #[trigger] final(scene).objects@[k]),
        final(scene).skybox == old(scene).skybox,
{
    let odd_arm = solid(13107, 19661, 6554);
    let even_arm = solid(58982, 58982, 58982);
    proof {
        assert(crate::texture::tex_bounded(odd_arm, FP_ONE as int));
        assert(crate::texture::tex_bounded(even_arm, FP_ONE as int));
    }
    let ground_texture = SceneTexture::Checker {
        size: 10 * FP_ONE,
        odd: Box::new(odd_arm),
        even: Box::new(even_arm),
    };
    proof {
        assert(crate::texture::tex_bounded(ground_texture, FP_ONE as int));
    }
    let mat_ground = MaterialType::Lambertian(Lambertian::new(ground_texture));
    let rect = 30 * FP_ONE;
    scene.add(GeometricObject::Rect(xz_rect(-rect, rect, -rect, rect, -7)), mat_ground);
}

/// A glass-coated layered ground.
pub fn create_fancy_ground(scene: &mut SceneBuilder)
    requires
        forall|k: int| 0 <= k < old(scene).objects@.len() ==> crate::scene::sobj_wf(
            #[trigger] old(scene).objects@[k]),
    ensures
        forall|k: int| 0 <= k < final(scene).objects@.len() ==> crate::scene::sobj_wf(
            #[trigger] final(scene).objects@[k]),
        final(scene).skybox == old(scene).skybox,
{
    let rect_size: i64 = 30 * FP_ONE;
    let top_coat: i64 = 655;
    let layer_sep: i64 = 655;
    let odd_arm = solid(45875, 45875, 45875);
    let even_arm = solid(6554, 6554, 6554);
    let lower_tex = SceneTexture::Checker {
        size: 3 * FP_ONE,
        odd: Box::new(odd_arm),
        even: Box::new(even_arm),
    };
    proof {
        assert(crate::texture::tex_bounded(odd_arm, FP_ONE as int));
        assert(crate::texture::tex_bounded(even_arm, FP_ONE as int));
        assert(crate::texture::tex_bounded(lower_tex, FP_ONE as int));
    }
    let lower_surface = MaterialType::Lambertian(Lambertian::new(lower_tex));
    scene.add(
        GeometricObject::Rect(xz_rect(-rect_size, rect_size, -rect_size, rect_size, -top_coat
            - layer_sep)),
        lower_surface,
    );
    scene.add(
        GeometricObject::RectBox(RectBox::new(
            Point(Vec3::new(-rect_size, -top_coat, -rect_size)),
            Point(Vec3::new(rect_size, 0, rect_size)),
        )),
        MaterialType::Dielectric(Dielectric { ir: FP_ONE }),
    );
}

/// The classic five-sphere demonstration scene.
pub fn create_scene() -> (s: Scene)
    ensures
        scene_wf(s),
        s.tree.leaves@.len() == 5,
{
    let mut scene = SceneBuilder::default();
    let mat_ground = MaterialType::Lambertian(Lambertian::new(solid(52429, 52429, 0)));
    let mat_center = MaterialType::Lambertian(Lambertian::new(solid(6554, 13107, 32768)));
    let mat_left = MaterialType::Dielectric(Dielectric { ir: 98304 });
    let mat_left2 = MaterialType::Dielectric(Dielectric { ir: 98304 });
    let mat_right = MaterialType::Metal(Metal::new(Color(Vec3::new(52429, 39322, 13107)),
        Some(0)));
    scene.add(
        GeometricObject::Sphere(Sphere {
            center: Point(Vec3::new(0, -6586368, -FP_ONE)),
            radius: 100 * FP_ONE,
        }),
        mat_ground,
    );
    scene.add(
        GeometricObject::Sphere(Sphere {
            center: Point(Vec3::new(0, 0, -FP_ONE)),
            radius: FP_ONE / 2,
        }),
        mat_center,
    );
    scene.add(
        GeometricObject::Sphere(Sphere {
            center: Point(Vec3::new(-FP_ONE, 0, -FP_ONE)),
            radius: FP_ONE / 2,
        }),
        mat_left,
    );
    scene.add(
        GeometricObject::Sphere(Sphere {
            center: Point(Vec3::new(-FP_ONE, 0, -FP_ONE)),
            radius: -26214,
        }),
        mat_left2,
    );
    scene.add(
        GeometricObject::Sphere(Sphere {
            center: Point(Vec3::new(FP_ONE, 0, -FP_ONE)),
            radius: FP_ONE / 2,
        }),
        mat_right,
    );
    scene.finalize()
}

/// The Cornell box: colored walls, a ceiling light, two inner boxes.
pub fn create_cornell_box() -> (s: Scene)
    ensures
        scene_wf(s),
        s.tree.leaves@.len() == 8,
{
    let mut scene = SceneBuilder::default();
    scene.set_skybox(SkyBox::Dark);
    let red = MaterialType::Lambertian(Lambertian::new(solid(42598, 3277, 3277)));
    let white = MaterialType::Lambertian(Lambertian::new(solid(47841, 47841, 47841)));
    let white2 = MaterialType::Lambertian(Lambertian::new(solid(47841, 47841, 47841)));
    let white3 = MaterialType::Lambertian(Lambertian::new(solid(47841, 47841, 47841)));
    let white4 = MaterialType::Lambertian(Lambertian::new(solid(47841, 47841, 47841)));
    let white5 = MaterialType::Lambertian(Lambertian::new(solid(47841, 47841, 47841)));
    let green = MaterialType::Lambertian(Lambertian::new(solid(7864, 29491, 9830)));
    let light = MaterialType::FairyLight(FairyLight::new(solid(15 * FP_ONE, 15 * FP_ONE,
        15 * FP_ONE)));
    let bs: i64 = 555 * FP_ONE;
    scene.add(GeometricObject::Rect(yz_rect(0, bs, 0, bs, bs)), green);
    scene.add(GeometricObject::Rect(yz_rect(0, bs, 0, bs, 0)), red);
    scene.add(GeometricObject::Rect(xz_rect(213 * FP_ONE, 343 * FP_ONE, 227 * FP_ONE,
        332 * FP_ONE, 554 * FP_ONE)), light);
    scene.add(GeometricObject::Rect(xz_rect(0, bs, 0, bs, 0)), white);
    scene.add(GeometricObject::Rect(xz_rect(0, bs, 0, bs, bs)), white2);
    scene.add(GeometricObject::Rect(xy_rect(0, bs, 0, bs, bs)), white3);
    scene.add(
        GeometricObject::RectBox(RectBox::new(Point(Vec3::new(130 * FP_ONE, 0, 65 * FP_ONE)),
            Point(Vec3::new(295 * FP_ONE, 165 * FP_ONE, 230 * FP_ONE)))),
        white4,
    );
    scene.add(
        GeometricObject::RectBox(RectBox::new(Point(Vec3::new(265 * FP_ONE, 0,
            295 * FP_ONE)), Point(Vec3::new(430 * FP_ONE, 330 * FP_ONE, 460 * FP_ONE)))),
        white5,
    );
    scene.finalize()
}

/// The noise-sphere demo scene over the checkered ground: a marble sphere.
pub fn create_perlin_demo(rng: &mut RngSource) -> (s: Scene)
    ensures
        scene_wf(s),
{
    let mut scene = SceneBuilder::default();
    create_ground_checker(&mut scene);
    let marble_tex = SceneTexture::Noise(crate::perlin::NoiseTexture::scale(rng,
        4 * FP_ONE));
    proof {
        assert(crate::texture::tex_bounded(marble_tex, FP_ONE as int));
    }
    let mat = MaterialType::Lambertian(Lambertian::new(marble_tex));
    scene.add(
        GeometricObject::Sphere(Sphere {
            center: Point(Vec3::new(0, 2 * FP_ONE, 0)),
            radius: 2 * FP_ONE,
        }),
        mat,
    );
    scene.finalize()
}

/// The textured-globe demo scene; the globe image is supplied decoded.
pub fn create_earth_demo(earth: ImageTexture) -> (s: Scene)
    ensures
        scene_wf(s),
{
    let mut scene = SceneBuilder::default();
    create_ground_checker(&mut scene);
    scene.add(
        GeometricObject::Sphere(Sphere {
            center: Point(Vec3::new(4 * FP_ONE, FP_ONE, FP_ONE)),
            radius: FP_ONE,
        }),
        MaterialType::Lambertian(Lambertian::new(SceneTexture::Image(earth))),
    );
    scene.finalize()
}

/// A dark scene lit by one area light over the checkered ground.
pub fn create_box_light(rng: &mut RngSource) -> (s: Scene)
    ensures
        scene_wf(s),
{
    let mut scene = SceneBuilder::default();
    scene.set_skybox(SkyBox::Dark);
    create_ground_checker(&mut scene);
    let marble_tex = SceneTexture::Noise(crate::perlin::NoiseTexture::scale(rng,
        4 * FP_ONE));
    proof {
        assert(crate::texture::tex_bounded(marble_tex, FP_ONE as int));
    }
    let mat = MaterialType::Lambertian(Lambertian::new(marble_tex));
    scene.add(
        GeometricObject::Sphere(Sphere {
            center: Point(Vec3::new(0, 2 * FP_ONE, 0)),
            radius: 2 * FP_ONE,
        }),
        mat,
    );
    scene.add(
        GeometricObject::Rect(xz_rect(3 * FP_ONE, 5 * FP_ONE, FP_ONE, 3 * FP_ONE,
            229376)),
        MaterialType::DiffuseLight(DiffuseLight::new(solid(4 * FP_ONE, 4 * FP_ONE,
            4 * FP_ONE))),
    );
    scene.finalize()
}

/// Shrinks a candidate ball until it no longer overlaps any earlier one,
/// dropping it onto the ground by the lost radius; a ball that would have
/// to shrink below the smallest supported radius is rejected.
fn check_fit_ball(balls: &Vec<Sphere>, s: Sphere) -> (r: Option<Sphere>)
    requires
        forall|k: int| 0 <= k < balls@.len() ==> crate::sphere::sphere_wf(
            (#[trigger] balls@[k])@) && crate::vec3::sv_bounded(balls@[k].center@, 0x200_0000),
        crate::vec3::sv_bounded(s.center@, 0x100_0000),
        crate::sphere::MIN_RADIUS as int <= s.radius <= FP_ONE as int,
    ensures
        r is Some ==> crate::sphere::sphere_wf(r->0@)
            && crate::vec3::sv_bounded(r->0.center@, 0x200_0000)
            && r->0.radius <= s.radius,
{
    let orig = s.radius;
    let mut radius = s.radius;
    let mut k: usize = 0;
    while k < balls.len()
        invariant
            forall|j: int| 0 <= j < balls@.len() ==> crate::sphere::sphere_wf(
                (#[trigger] balls@[j])@) && crate::vec3::sv_bounded(balls@[j].center@,
                0x200_0000),
            crate::vec3::sv_bounded(s.center@, 0x100_0000),
            k <= balls@.len(),
            radius <= s.radius <= FP_ONE as int,
        decreases balls@.len() - k,
    {
        let other = &balls[k];
        let delta = other.center.0.sub(&s.center.0);
        let dist = delta.length();
        let rem = dist - if other.radius >= 0 {
            other.radius
        } else {
            -other.radius
        };
        if rem < radius {
            radius = rem;
        }
        k = k + 1;
    }
    if radius < crate::sphere::MIN_RADIUS {
        return None;
    }
    let drop = orig - radius;
    Some(Sphere {
        center: Point(Vec3::new(s.center.0.x, s.center.0.y - drop, s.center.0.z)),
        radius,
    })
}

/// A field of random small spheres around three landmark balls, as in the
/// cover scene; at night the sky goes dark and lights appear.
pub fn random_scene(rng: &mut RngSource, night: bool) -> (b: SceneBuilder)
    ensures
        forall|k: int| 0 <= k < b.objects@.len() ==> crate::scene::sobj_wf(
            #[trigger] b.objects@[k]),
        crate::scene::sky_wf(b.skybox),
{
    let mut scene = SceneBuilder::default();
    if night {
        scene.set_skybox(SkyBox::Dark);
        create_ground_checker(&mut scene);
    } else {
        create_fancy_ground(&mut scene);
    }
    let mut balls: Vec<Sphere> = Vec::new();
    let glass_ball = Sphere { center: Point(Vec3::new(0, FP_ONE, 0)), radius: FP_ONE };
    if let Some(b) = check_fit_ball(&balls, glass_ball) {
        balls.push(b);
        scene.add(GeometricObject::Sphere(b), MaterialType::Dielectric(Dielectric {
            ir: 98304,
        }));
    }
    let west_ball = Sphere {
        center: Point(Vec3::new(-4 * FP_ONE, FP_ONE, 0)),
        radius: FP_ONE,
    };
    if let Some(b) = check_fit_ball(&balls, west_ball) {
        balls.push(b);
        if night {
            scene.add(GeometricObject::Sphere(b), MaterialType::FairyLight(FairyLight::new(
                solid(59638, 51118, 42598))));
        } else {
            scene.add(GeometricObject::Sphere(b), MaterialType::Lambertian(Lambertian::new(
                solid(26214, 13107, 6554))));
        }
    }
    let east_ball = Sphere {
        center: Point(Vec3::new(4 * FP_ONE, FP_ONE, 0)),
        radius: FP_ONE,
    };
    if let Some(b) = check_fit_ball(&balls, east_ball) {
        balls.push(b);
        scene.add(GeometricObject::Sphere(b), MaterialType::Metal(Metal::new(Color(
            Vec3::new(45875, 39322, 32768)), None)));
    }
    let mut a: i64 = -11;
    while a < 11
        invariant
            -11 <= a <= 11,
            forall|k: int| 0 <= k < scene.objects@.len() ==> crate::scene::sobj_wf(
                #[trigger] scene.objects@[k]),
            crate::scene::sky_wf(scene.skybox),
            forall|k: int| 0 <= k < balls@.len() ==> crate::sphere::sphere_wf(
                (#[trigger] balls@[k])@) && crate::vec3::sv_bounded(balls@[k].center@,
                0x200_0000),
        decreases 11 - a,
    {
        let mut b: i64 = -11;
        while b < 11
            invariant
                -11 <= a < 11,
                -11 <= b <= 11,
                forall|k: int| 0 <= k < scene.objects@.len() ==> crate::scene::sobj_wf(
                    #[trigger] scene.objects@[k]),
                crate::scene::sky_wf(scene.skybox),
                forall|k: int| 0 <= k < balls@.len() ==> crate::sphere::sphere_wf(
                    (#[trigger] balls@[k])@) && crate::vec3::sv_bounded(balls@[k].center@,
                    0x200_0000),
            decreases 11 - b,
        {
            let radius = rng.gen_range_i64(3277, 16384);
            let cx = a * FP_ONE + rng.gen_range_i64(0, 58982);
            let cz = b * FP_ONE + rng.gen_range_i64(0, 58982);
            let candidate = Sphere { center: Point(Vec3::new(cx, radius, cz)), radius };
            // Keep clear of the metal landmark ball.
            let near_keepout = cx > 2 * FP_ONE && cx < 4 * FP_ONE + FP_ONE && cz > -FP_ONE
                && cz < FP_ONE;
            let fitted = if near_keepout {
                None
            } else {
                check_fit_ball(&balls, candidate)
            };
            if let Some(ball) = fitted {
                balls.push(ball);
                let weight_light: i64 = if night {
                    40
                } else {
                    0
                };
                let total: i64 = 40 + weight_light + 10 + 40 + 3;
                let draw = rng.gen_range_i64(0, total - 1);
                let sphere = GeometricObject::Sphere(ball);
                if draw < 40 {
                    let c = random_albedo(rng);
                    scene.add(sphere, MaterialType::Lambertian(Lambertian::new(
                        SceneTexture::Solid(ConstantTexture { color: c }))));
                } else if draw < 40 + weight_light {
                    let c = random_albedo(rng);
                    proof {
                        assert(crate::texture::tex_bounded(SceneTexture::Solid(
                            ConstantTexture { color: c }), crate::material::emit_limit()));
                    }
                    scene.add(sphere, MaterialType::FairyLight(FairyLight::new(
                        SceneTexture::Solid(ConstantTexture { color: c }))));
                } else if draw < 40 + weight_light + 10 {
                    scene.add(sphere, MaterialType::Dielectric(Dielectric { ir: 98304 }));
                } else if draw < 40 + weight_light + 10 + 40 {
                    let c = Color(Vec3::new(rng.gen_range_i64(32768, 65536),
                        rng.gen_range_i64(32768, 65536), rng.gen_range_i64(32768, 65536)));
                    let fuzz = rng.gen_range_i64(0, 32768);
                    scene.add(sphere, MaterialType::Metal(Metal::new(c, Some(fuzz))));
                } else {
                    let c = random_albedo(rng);
                    let odd_arm = SceneTexture::Solid(ConstantTexture { color: c });
                    let even_arm = solid(58982, 58982, 58982);
                    let checker = SceneTexture::Checker {
                        size: 32 * FP_ONE,
                        odd: Box::new(odd_arm),
                        even: Box::new(even_arm),
                    };
                    proof {
                        assert(crate::texture::tex_bounded(odd_arm, FP_ONE as int));
                        assert(crate::texture::tex_bounded(even_arm, FP_ONE as int));
                        assert(crate::texture::tex_bounded(checker, FP_ONE as int));
                    }
                    scene.add(sphere, MaterialType::Lambertian(Lambertian::new(checker)));
                }
            }
            b = b + 1;
        }
        a = a + 1;
    }
    scene
}

/// A random reflectance color: the componentwise product of two uniform
/// draws, always within one.
fn random_albedo(rng: &mut RngSource) -> (c: Color)
    ensures
        crate::vec3::sv_bounded(c@, FP_ONE as int),
{
    let a = Vec3::new(rng.gen_range_i64(0, FP_ONE), rng.gen_range_i64(0, FP_ONE),
        rng.gen_range_i64(0, FP_ONE));
    let b = Vec3::new(rng.gen_range_i64(0, FP_ONE), rng.gen_range_i64(0, FP_ONE),
        rng.gen_range_i64(0, FP_ONE));
    proof {
        crate::vec3::lemma_scale_fits(a@.x, b@.x, 65536, 65536);
        crate::vec3::lemma_scale_fits(a@.y, b@.y, 65536, 65536);
        crate::vec3::lemma_scale_fits(a@.z, b@.z, 65536, 65536);
        crate::vec3::lemma_scale_result(a@.x, b@.x, 65536, 65536, 65536);
        crate::vec3::lemma_scale_result(a@.y, b@.y, 65536, 65536, 65536);
        crate::vec3::lemma_scale_result(a@.z, b@.z, 65536, 65536, 65536);
    }
    Color(a.mul(&b))
}

/// The default camera of the demo scenes.
pub fn default_camera(width: usize) -> (r: Result<(Camera, CameraPosition), RenderError>)
    requires
        1 <= width <= 0x4000,
    ensures
        r is Ok,
        r is Ok ==> camera_wf(r->Ok_0.0) && pos_wf(r->Ok_0.1),
{
    let mut camera = CameraBuilder::default();
    camera.vfov(20 * FP_ONE);
    camera.focal_length(FP_ONE);
    camera.aperture(65);
    camera.width(width);
    camera.aspect_ratio(AspectRatio::Rational(3, 2));
    let cam = match camera.build() {
        Ok(c) => c,
        Err(e) => {
            proof {
                assert(false);
            }
            return Err(e);
        },
    };
    let mut pos = CameraPosition::look_at(Point(Vec3::new(13 * FP_ONE, 2 * FP_ONE,
        3 * FP_ONE)), Point(Vec3::new(0, 0, 0)), Vec3::new(0, FP_ONE, 0));
    pos.focus_length = 10 * FP_ONE;
    Ok((cam, pos))
}

/// Renders the five-sphere demo scene.
pub fn render_demo(settings: &RenderSettings, width: usize, rng: &mut RngSource)
    -> (r: Result<Image, RenderError>)
    requires
        settings_ok(*settings),
        1 <= width <= 0x4000,
    ensures
        r is Ok,
        r is Ok ==> r->Ok_0.data@.len() == r->Ok_0.dimm.width * r->Ok_0.dimm.height
            && r->Ok_0.samples == (if settings.samples == 0 {
            1int
        } else {
            settings.samples as int
        }) && forall|i: int| 0 <= i < r->Ok_0.data@.len() ==> crate::vec3::sv_bounded(
            (#[trigger] r->Ok_0.data@[i])@, (r->Ok_0.samples as int)
            * (crate::vec3::VEC_LIMIT as int)),
{
    let scene = create_scene();
    let (camera, pos) = match default_camera(width) {
        Ok(p) => p,
        Err(e) => {
            proof {
                assert(false);
            }
            return Err(e);
        },
    };
    Ok(render_frame(settings, &scene, &camera, &pos, rng))
}

/// Renders the noise-sphere demo scene.
pub fn render_perlin(settings: &RenderSettings, width: usize, rng: &mut RngSource)
    -> (r: Result<Image, RenderError>)
    requires
        settings_ok(*settings),
        1 <= width <= 0x4000,
    ensures
        r is Ok,
        r is Ok ==> r->Ok_0.data@.len() == r->Ok_0.dimm.width * r->Ok_0.dimm.height
            && r->Ok_0.samples == (if settings.samples == 0 {
            1int
        } else {
            settings.samples as int
        }) && forall|i: int| 0 <= i < r->Ok_0.data@.len() ==> crate::vec3::sv_bounded(
            (#[trigger] r->Ok_0.data@[i])@, (r->Ok_0.samples as int)
            * (crate::vec3::VEC_LIMIT as int)),
{
    let scene = create_perlin_demo(rng);
    let (camera, pos) = match default_camera(width) {
        Ok(p) => p,
        Err(e) => {
            proof {
                assert(false);
            }
            return Err(e);
        },
    };
    Ok(render_frame(settings, &scene, &camera, &pos, rng))
}

/// Renders the textured-globe demo scene from decoded globe image bytes.
pub fn render_earth(settings: &RenderSettings, width: usize, rng: &mut RngSource,
    earth_image: &[u8]) -> (r: Result<Image, RenderError>)
    requires
        settings_ok(*settings),
        1 <= width <= 0x4000,
    ensures
        r is Err ==> r->Err_0 == RenderError::TextureDecode,
        r is Ok <==> crate::texture::image_decodes(earth_image@),
        r is Ok ==> r->Ok_0.data@.len() == r->Ok_0.dimm.width * r->Ok_0.dimm.height
            && r->Ok_0.samples == (if settings.samples == 0 {
            1int
        } else {
            settings.samples as int
        }) && forall|i: int| 0 <= i < r->Ok_0.data@.len() ==> crate::vec3::sv_bounded(
            (#[trigger] r->Ok_0.data@[i])@, (r->Ok_0.samples as int)
            * (crate::vec3::VEC_LIMIT as int)),
{
    let earth = match ImageTexture::load_from_memory(earth_image) {
        Ok(t) => t,
        Err(e) => {
            return Err(e);
        },
    };
    let scene = create_earth_demo(earth);
    let (camera, pos) = match default_camera(width) {
        Ok(p) => p,
        Err(e) => {
            proof {
                assert(false);
            }
            return Err(e);
        },
    };
    Ok(render_frame(settings, &scene, &camera, &pos, rng))
}

/// Renders the area-light demo scene.
pub fn render_boxlight(settings: &RenderSettings, width: usize, rng: &mut RngSource)
    -> (r: Result<Image, RenderError>)
    requires
        settings_ok(*settings),
        1 <= width <= 0x4000,
    ensures
        r is Ok,
        r is Ok ==> r->Ok_0.data@.len() == r->Ok_0.dimm.width * r->Ok_0.dimm.height
            && r->Ok_0.samples == (if settings.samples == 0 {
            1int
        } else {
            settings.samples as int
        }) && forall|i: int| 0 <= i < r->Ok_0.data@.len() ==> crate::vec3::sv_bounded(
            (#[trigger] r->Ok_0.data@[i])@, (r->Ok_0.samples as int)
            * (crate::vec3::VEC_LIMIT as int)),
{
    let scene = create_box_light(rng);
    let (camera, pos) = match default_camera(width) {
        Ok(p) => p,
        Err(e) => {
            proof {
                assert(false);
            }
            return Err(e);
        },
    };
    Ok(render_frame(settings, &scene, &camera, &pos, rng))
}

/// Renders the Cornell box.
pub fn render_cornell_box(settings: &RenderSettings, width: usize, rng: &mut RngSource)
    -> (r: Result<Image, RenderError>)
    requires
        settings_ok(*settings),
        1 <= width <= 0x4000,
    ensures
        r is Ok,
        r is Ok ==> r->Ok_0.data@.len() == r->Ok_0.dimm.width * r->Ok_0.dimm.height
            && r->Ok_0.samples == (if settings.samples == 0 {
            1int
        } else {
            settings.samples as int
        }) && forall|i: int| 0 <= i < r->Ok_0.data@.len() ==> crate::vec3::sv_bounded(
            (#[trigger] r->Ok_0.data@[i])@, (r->Ok_0.samples as int)
            * (crate::vec3::VEC_LIMIT as int)),
{
    let scene = create_cornell_box();
    let mut camera = CameraBuilder::default();
    camera.vfov(40 * FP_ONE);
    camera.focal_length(FP_ONE);
    camera.aperture(1);
    camera.width(width);
    camera.aspect_ratio(AspectRatio::Rational(1, 1));
    let cam = match camera.build() {
        Ok(c) => c,
        Err(e) => {
            proof {
                assert(false);
            }
            return Err(e);
        },
    };
    let mut pos = CameraPosition::look_at(
        Point(Vec3::new(278 * FP_ONE, 278 * FP_ONE, -(800 * FP_ONE))),
        Point(Vec3::new(278 * FP_ONE, 278 * FP_ONE, 0)),
        Vec3::new(0, FP_ONE, 0),
    );
    pos.focus_length = 10 * FP_ONE;
    Ok(render_frame(settings, &scene, &cam, &pos, rng))
}

/// Renders the random cover scene.
pub fn render_random(settings: &RenderSettings, width: usize, rng: &mut RngSource,
    night: bool) -> (r: Result<Image, RenderError>)
    requires
        settings_ok(*settings),
        1 <= width <= 0x4000,
    ensures
        r is Ok,
        r is Ok ==> r->Ok_0.data@.len() == r->Ok_0.dimm.width * r->Ok_0.dimm.height
            && r->Ok_0.samples == (if settings.samples == 0 {
            1int
        } else {
            settings.samples as int
        }) && forall|i: int| 0 <= i < r->Ok_0.data@.len() ==> crate::vec3::sv_bounded(
            (#[trigger] r->Ok_0.data@[i])@, (r->Ok_0.samples as int)
            * (crate::vec3::VEC_LIMIT as int)),
{
    let builder = random_scene(rng, night);
    let scene = builder.finalize();
    let (camera, pos) = match default_camera(width) {
        Ok(p) => p,
        Err(e) => {
            proof {
                assert(false);
            }
            return Err(e);
        },
    };
    Ok(render_frame(settings, &scene, &camera, &pos, rng))
}

} // verus!

//! Textures: solid colors, the checkerboard, and image-sampled lookups.

use vstd::prelude::*;

use crate::error::RenderError;
use crate::fixed::{div_floor_i128, floor_div, FP_ONE};
use crate::vec3::{mul_bound, sv_bounded, Color, Point, Vec3, V3, PROD_LIMIT};

verus! {

/// The fixed-point approximation of pi used by the checker pattern.
pub const PI_FP: i64 = 205887;

#[verifier::external_type_specification]
#[verifier::external_body]
pub struct ExDynamicImage(image::DynamicImage);

#[verifier::external_type_specification]
#[verifier::external_body]
pub struct ExImageError(image::ImageError);

/// Whether a byte buffer decodes as an image, a function of the bytes
/// alone.
pub uninterp spec fn image_decodes(bytes: Seq<u8>) -> bool;

/// The pixels of a decoded image, indexed by column and row.
pub uninterp spec fn image_pixels(img: image::DynamicImage) -> Map<(int, int), (u8, u8, u8)>;

/// The width and height of a decoded image.
pub uninterp spec fn image_size(img: image::DynamicImage) -> (int, int);

/// Relies on `image::load_from_memory`: decodes an encoded image from a
/// byte buffer, guessing the format; success depends on the bytes alone.
#[verifier::external_body]
fn decode_image(buffer: &[u8]) -> (r: Result<image::DynamicImage, image::ImageError>)
    ensures
        r is Ok <==> image_decodes(buffer@),
{
    image::load_from_memory(buffer)
}

/// Relies on `image::GenericImageView::dimensions` of `DynamicImage`: the
/// image's width and height in pixels.
#[verifier::external_body]
fn image_dimensions(img: &image::DynamicImage) -> (r: (u32, u32))
    ensures
        (r.0 as int, r.1 as int) == image_size(*img),
{
    image::GenericImageView::dimensions(img)
}

/// Relies on `image::GenericImageView::get_pixel` of `DynamicImage`: the
/// RGBA pixel at a coordinate inside the image.
#[verifier::external_body]
fn image_pixel_at(img: &image::DynamicImage, x: u32, y: u32) -> (r: (u8, u8, u8))
    requires
        0 <= x < image_size(*img).0,
        0 <= y < image_size(*img).1,
    ensures
        r == image_pixels(*img)[(x as int, y as int)],
{
    let p = image::GenericImageView::get_pixel(img, x, y);
    (p.0[0], p.0[1], p.0[2])
}

/// A texture sampled from a decoded bitmap by nearest lookup.
#[derive(Debug)]
pub struct ImageTexture {
    pub data: image::DynamicImage,
}

/// The color an image texture yields: the nearest pixel under the clamped,
/// vertically flipped coordinates, rescaled to fixed point.
pub open spec fn image_value(img: image::DynamicImage, u: int, v: int) -> V3 {
    let w = image_size(img).0;
    let h = image_size(img).1;
    if w <= 0 || h <= 0 {
        V3 { x: 0, y: 0, z: 0 }
    } else {
        let uc = crate::sphere::clamp_unit(u);
        let vc = FP_ONE as int - crate::sphere::clamp_unit(v);
        let i = floor_div(uc * (w - 1), FP_ONE as int);
        let j = floor_div(vc * (h - 1), FP_ONE as int);
        let p = image_pixels(img)[(i, j)];
        V3 {
            x: floor_div(p.0 as int * (FP_ONE as int), 255),
            y: floor_div(p.1 as int * (FP_ONE as int), 255),
            z: floor_div(p.2 as int * (FP_ONE as int), 255),
        }
    }
}

impl ImageTexture {
    /// Decodes a texture from in-memory image bytes.
    pub fn load_from_memory(buffer: &[u8]) -> (r: Result<ImageTexture, RenderError>)
        ensures
            r is Ok <==> image_decodes(buffer@),
            r is Err ==> r->Err_0 == RenderError::TextureDecode,
    {
        match decode_image(buffer) {
            Ok(img) => Ok(ImageTexture { data: img }),
            Err(_) => Err(RenderError::TextureDecode),
        }
    }

    /// The nearest pixel under the texture coordinates, as a color.
    pub fn value(&self, u: i64, v: i64) -> (r: Color)
        ensures
            r@ == image_value(self.data, u as int, v as int),
            sv_bounded(r@, FP_ONE as int),
    {
        let (w, h) = image_dimensions(&self.data);
        if w == 0 || h == 0 {
            return Color(Vec3::new(0, 0, 0));
        }
        let uc = clamp_unit_i64(u);
        let vc = FP_ONE - clamp_unit_i64(v);
        proof {
            mul_bound(uc as int, w as int - 1, FP_ONE as int, 0x1_0000_0000);
            mul_bound(vc as int, h as int - 1, FP_ONE as int, 0x1_0000_0000);
        }
        let iw = div_floor_i128((uc as i128) * ((w as i128) - 1), FP_ONE as i128);
        let jw = div_floor_i128((vc as i128) * ((h as i128) - 1), FP_ONE as i128);
        proof {
            assert(0 <= uc as int * (w as int - 1) <= (w as int - 1) * (FP_ONE as int))
                by (nonlinear_arith)
                requires
                    0 <= uc as int <= FP_ONE as int,
                    w as int >= 1,
            ;
            assert(0 <= vc as int * (h as int - 1) <= (h as int - 1) * (FP_ONE as int))
                by (nonlinear_arith)
                requires
                    0 <= vc as int <= FP_ONE as int,
                    h as int >= 1,
            ;
            crate::fixed::lemma_floor_div_shrink(uc as int * (w as int - 1), FP_ONE as int,
                w as int - 1);
            crate::fixed::lemma_floor_div_shrink(vc as int * (h as int - 1), FP_ONE as int,
                h as int - 1);
            vstd::arithmetic::div_mod::lemma_div_pos_is_pos(uc as int * (w as int - 1),
                FP_ONE as int);
            vstd::arithmetic::div_mod::lemma_div_pos_is_pos(vc as int * (h as int - 1),
                FP_ONE as int);
        }
        let i = iw as u32;
        let j = jw as u32;
        let p = image_pixel_at(&self.data, i, j);
        proof {
            crate::fixed::lemma_floor_div_shrink(p.0 as int * (FP_ONE as int), 255,
                FP_ONE as int);
            crate::fixed::lemma_floor_div_shrink(p.1 as int * (FP_ONE as int), 255,
                FP_ONE as int);
            crate::fixed::lemma_floor_div_shrink(p.2 as int * (FP_ONE as int), 255,
                FP_ONE as int);
            vstd::arithmetic::div_mod::lemma_div_pos_is_pos(p.0 as int * (FP_ONE as int), 255);
            vstd::arithmetic::div_mod::lemma_div_pos_is_pos(p.1 as int * (FP_ONE as int), 255);
            vstd::arithmetic::div_mod::lemma_div_pos_is_pos(p.2 as int * (FP_ONE as int), 255);
        }
        let cx = div_floor_i128((p.0 as i128) * (FP_ONE as i128), 255) as i64;
        let cy = div_floor_i128((p.1 as i128) * (FP_ONE as i128), 255) as i64;
        let cz = div_floor_i128((p.2 as i128) * (FP_ONE as i128), 255) as i64;
        Color(Vec3::new(cx, cy, cz))
    }
}

/// Clamp a texture coordinate into `[0, FP_ONE]`.
fn clamp_unit_i64(x: i64) -> (r: i64)
    ensures
        r == crate::sphere::clamp_unit(x as int),
        0 <= r <= FP_ONE,
{
    if x < 0 {
        0
    } else if x > FP_ONE {
        FP_ONE
    } else {
        x
    }
}

/// A texture of one color everywhere.
#[derive(Clone, Copy, Debug, PartialEq, Eq, Structural)]
pub struct ConstantTexture {
    pub color: Color,
}

/// The closed set of textures a material can sample.
#[derive(Debug)]
pub enum SceneTexture {
    Solid(ConstantTexture),
    Checker { size: i64, odd: Box<SceneTexture>, even: Box<SceneTexture> },
    Noise(crate::perlin::NoiseTexture),
    Image(ImageTexture),
}

/// Textures whose colors the contracts can bound: solids within the given
/// bound, checker arms recursively so, image pixels always within one.
pub open spec fn tex_bounded(t: SceneTexture, b: int) -> bool
    decreases t,
{
    match t {
        SceneTexture::Solid(c) => sv_bounded(c.color@, b),
        SceneTexture::Checker { size, odd, even } => {
            &&& -(PROD_LIMIT as int) <= size <= PROD_LIMIT as int
            &&& tex_bounded(*odd, b)
            &&& tex_bounded(*even, b)
        },
        SceneTexture::Noise(n) => crate::perlin::noise_tex_wf(n) && b >= FP_ONE as int,
        SceneTexture::Image(img) => b >= FP_ONE as int,
    }
}

/// A color bound on a texture weakens monotonically.
pub proof fn lemma_tex_bounded_mono(t: SceneTexture, b1: int, b2: int)
    requires
        tex_bounded(t, b1),
        b1 <= b2,
        b2 >= FP_ONE as int,
    ensures
        tex_bounded(t, b2),
    decreases t,
{
    match t {
        SceneTexture::Solid(c) => {
        },
        SceneTexture::Checker { size, odd, even } => {
            lemma_tex_bounded_mono(*odd, b1, b2);
            lemma_tex_bounded_mono(*even, b1, b2);
        },
        SceneTexture::Noise(n) => {
        },
        SceneTexture::Image(img) => {
        },
    }
}

/// Whether the checker pattern selects the odd arm: the sign of the product
/// of the three sines of the scaled coordinates, computed exactly through
/// the parity of each angle's half-turn count.
pub open spec fn checker_odd(size: int, p: V3) -> bool {
    let qx = floor_div(floor_div(size * p.x, FP_ONE as int), PI_FP as int);
    let qy = floor_div(floor_div(size * p.y, FP_ONE as int), PI_FP as int);
    let qz = floor_div(floor_div(size * p.z, FP_ONE as int), PI_FP as int);
    (qx + qy + qz) % 2 != 0
}

/// The color a texture yields at surface coordinates and position.
pub open spec fn tex_value(t: SceneTexture, u: int, v: int, p: V3) -> V3
    decreases t,
{
    match t {
        SceneTexture::Solid(c) => c.color@,
        SceneTexture::Checker { size, odd, even } => if checker_odd(size as int, p) {
            tex_value(*odd, u, v, p)
        } else {
            tex_value(*even, u, v, p)
        },
        SceneTexture::Noise(n) => crate::perlin::marble_value(n, p),
        SceneTexture::Image(img) => image_value(img.data, u, v),
    }
}

impl SceneTexture {
    /// Samples the texture.
    pub fn value(&self, u: i64, v: i64, p: &Point) -> (r: Color)
        requires
            tex_bounded(*self, 0x1_0000_0000),
            sv_bounded(p@, PROD_LIMIT as int),
        ensures
            r@ == tex_value(*self, u as int, v as int, p@),
            sv_bounded(r@, 0x1_0000_0000),
            tex_bounded(*self, FP_ONE as int) ==> sv_bounded(r@, FP_ONE as int),
            tex_bounded(*self, 0x1000_0000) ==> sv_bounded(r@, 0x1000_0000),
        decreases *self,
    {
        match self {
            SceneTexture::Solid(c) => c.color,
            SceneTexture::Checker { size, odd, even } => {
                if checker_odd_exec(*size, p) {
                    odd.value(u, v, p)
                } else {
                    even.value(u, v, p)
                }
            },
            SceneTexture::Noise(n) => {
                let c = n.value(p);
                proof {
                    assert(sv_bounded(c@, 0x1_0000_0000));
                }
                c
            },
            SceneTexture::Image(img) => {
                let c = img.value(u, v);
                proof {
                    assert(sv_bounded(c@, 0x1_0000_0000));
                }
                c
            },
        }
    }
}

/// The checker parity, computed in wide integers.
fn checker_odd_exec(size: i64, p: &Point) -> (r: bool)
    requires
        -(PROD_LIMIT as int) <= size <= PROD_LIMIT as int,
        sv_bounded(p@, PROD_LIMIT as int),
    ensures
        r == checker_odd(size as int, p@),
{
    let qx = checker_quadrant(size, p.0.x);
    let qy = checker_quadrant(size, p.0.y);
    let qz = checker_quadrant(size, p.0.z);
    let s: i64 = qx + qy + qz;
    let shifted: u64 = (s + 4 * PROD_LIMIT) as u64;
    let parity = shifted % 2;
    proof {
        lemma_parity(s as int, shifted as int);
    }
    parity != 0
}

/// One axis's half-turn count under the checker scaling.
fn checker_quadrant(size: i64, c: i64) -> (r: i64)
    requires
        -(PROD_LIMIT as int) <= size <= PROD_LIMIT as int,
        -(PROD_LIMIT as int) <= c <= PROD_LIMIT as int,
    ensures
        r == floor_div(floor_div(size as int * c as int, FP_ONE as int), PI_FP as int),
        -(PROD_LIMIT as int) <= r <= PROD_LIMIT as int,
{
    proof {
        mul_bound(size as int, c as int, PROD_LIMIT as int, PROD_LIMIT as int);
    }
    let scaled = div_floor_i128((size as i128) * (c as i128), FP_ONE as i128);
    proof {
        crate::fixed::lemma_floor_div_bound(size as int * c as int, FP_ONE as int);
        crate::fixed::lemma_floor_div_bound(floor_div(size as int * c as int, FP_ONE as int),
            PI_FP as int);
        crate::fixed::lemma_floor_div_shrink(floor_div(size as int * c as int, FP_ONE as int),
            PI_FP as int, PROD_LIMIT as int);
    }
    div_floor_i128(scaled, PI_FP as i128) as i64
}

/// Shifting by an even offset keeps the parity.
proof fn lemma_parity(s: int, shifted: int)
    requires
        shifted == s + 4 * PROD_LIMIT as int,
    ensures
        (shifted % 2) == (s % 2),
{
    vstd::arithmetic::div_mod::lemma_mod_add_multiples_vanish(s, 2);
    assert(shifted == 2 * (2 * PROD_LIMIT as int) + s);
    assert((2 * (2 * PROD_LIMIT as int) + s) % 2 == s % 2) by {
        lemma_even_multiple_vanish(s, 2 * PROD_LIMIT as int);
    }
}

/// Adding a multiple of two does not change the remainder by two.
proof fn lemma_even_multiple_vanish(s: int, k: int)
    ensures
        (2 * k + s) % 2 == s % 2,
{
    vstd::arithmetic::div_mod::lemma_mod_multiples_vanish(k, s, 2);
}

} // verus!

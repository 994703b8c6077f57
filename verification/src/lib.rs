//! A minimal ray-tracing core over exact fixed-point arithmetic: vector
//! algebra, ray/sphere intersection, closest-hit resolution over a scene,
//! and a render loop that maps hits and a background gradient to RGBA bytes.

pub mod fixed;
pub mod vec3;
pub mod ray;
pub mod hittable_object;
pub mod sphere;
pub mod hitable_list;

use vstd::prelude::*;
use vstd::arithmetic::div_mod::{
    lemma_div_is_ordered, lemma_div_multiples_vanish, lemma_fundamental_div_mod_converse_div,
    lemma_fundamental_div_mod_converse_mod,
};
use crate::fixed::{
    SCALE, COORD_LIMIT, T_LIMIT, div_floor_i128, lemma_div_bounds, lemma_mul_mag,
    lemma_fmul_lerp, lemma_fmul_unit,
};
use crate::vec3::{Vec3, vadd, vsub, vscale, bounded, vunit, lemma_unit_bounded};
use crate::ray::{Ray, ray_wf, lemma_nonzero_vls};
use crate::hittable_object::{HitRecord, HittableObject};
use crate::hitable_list::{HitableList, all_wf, best_of};

verus! {

/// Largest magnitude accepted for a camera vector component, chosen so that
/// every per-pixel ray direction stays within `COORD_LIMIT`.
pub const CAM_LIMIT: i64 = 0x3FF_FFFF;

/// The camera configuration: four vectors derived externally from viewport
/// geometry.
#[derive(Clone, Copy)]
pub struct Camera {
    pub origin: Vec3,
    pub horizontal: Vec3,
    pub vertical: Vec3,
    pub lower_left_corner: Vec3,
}

/// Cameras accepted by the render loop.
pub open spec fn camera_wf(cam: Camera) -> bool {
    &&& bounded(cam.origin@, CAM_LIMIT as int)
    &&& bounded(cam.horizontal@, CAM_LIMIT as int)
    &&& bounded(cam.vertical@, CAM_LIMIT as int)
    &&& bounded(cam.lower_left_corner@, CAM_LIMIT as int)
}

/// The normalized viewport coordinate of pixel index `idx` out of `extent`.
pub open spec fn viewport_coord(idx: int, extent: int) -> int {
    (idx * SCALE) / extent
}

/// The direction of the ray cast through pixel `(row, col)` of a `w` by `h`
/// image: `lower_left_corner + u*horizontal + v*vertical - origin`.
pub open spec fn pixel_dir(cam: Camera, row: int, col: int, w: int, h: int) -> (int, int, int) {
    vsub(
        vadd(
            vadd(cam.lower_left_corner@, vscale(viewport_coord(row, w), cam.horizontal@)),
            vscale(viewport_coord(col, h), cam.vertical@),
        ),
        cam.origin@,
    )
}

/// The ray cast through pixel `(row, col)`.
pub open spec fn pixel_ray(cam: Camera, row: int, col: int, w: int, h: int) -> Ray {
    Ray {
        origin: cam.origin,
        direction: Vec3 {
            x: pixel_dir(cam, row, col, w, h).0 as i64,
            y: pixel_dir(cam, row, col, w, h).1 as i64,
            z: pixel_dir(cam, row, col, w, h).2 as i64,
        },
    }
}

/// Component `k` of a vector.
pub open spec fn comp(a: (int, int, int), k: int) -> int {
    if k == 0 {
        a.0
    } else if k == 1 {
        a.1
    } else {
        a.2
    }
}

/// Clamps a channel value to a byte.
pub open spec fn clamp_channel(x: int) -> int {
    if x < 0 {
        0
    } else if x > 255 {
        255
    } else {
        x
    }
}

/// The byte for a normal component in `[-SCALE, SCALE]`: half of the
/// component plus one, times 255.999, truncated and clamped.
pub open spec fn normal_channel(v: int) -> int {
    clamp_channel(((v + SCALE) * 255999) / (2000 * (SCALE as int)))
}

/// The byte for a color fraction in `[0, SCALE]`: the fraction times
/// 255.999, truncated.
pub open spec fn frac_channel(c: int) -> int {
    (c * 255999) / (1000 * (SCALE as int))
}

/// The background blend parameter: half of the unit direction's vertical
/// component plus one.
pub open spec fn bg_t(ray: Ray) -> int {
    (vunit(ray.direction@).1 + SCALE) / 2
}

/// White, the lower end of the background gradient.
pub open spec fn white() -> (int, int, int) {
    (SCALE as int, SCALE as int, SCALE as int)
}

/// Sky blue, the upper end of the background gradient.
pub open spec fn sky_blue() -> (int, int, int) {
    ((SCALE as int) / 2, 7 * (SCALE as int) / 10, SCALE as int)
}

/// The background color of a ray: white and sky blue blended by the unit
/// direction's vertical component.
pub open spec fn bg_color(ray: Ray) -> (int, int, int) {
    vadd(vscale(SCALE - bg_t(ray), white()), vscale(bg_t(ray), sky_blue()))
}

/// Channel `k` of the color of a ray against a scene: the oriented normal
/// mapped to a byte on a hit, the background gradient otherwise; alpha is
/// always opaque.
pub open spec fn color_model<T: HittableObject>(ray: Ray, objs: Seq<T>, k: int) -> int {
    if k == 3 {
        255
    } else {
        match best_of(objs, ray, 0, T_LIMIT as int) {
            Some(m) => normal_channel(comp(m.2, k)),
            None => frac_channel(comp(bg_color(ray), k)),
        }
    }
}

/// Byte `i` of the rendered image: pixel rows run from the top of the
/// viewport down the buffer, left to right within each row, four bytes per
/// pixel.
pub open spec fn byte_at<T: HittableObject>(
    cam: Camera,
    objs: Seq<T>,
    w: int,
    h: int,
    i: int,
) -> int {
    let p = i / 4;
    let k = i % 4;
    let row = p % w;
    let col = h - 1 - p / w;
    color_model(pixel_ray(cam, row, col, w, h), objs, k)
}

/// A pixel index maps to a viewport coordinate in `[0, SCALE]`.
pub proof fn lemma_viewport_coord_range(idx: int, extent: int)
    requires
        0 <= idx < extent,
    ensures
        0 <= viewport_coord(idx, extent) <= SCALE,
{
    assert(0 <= idx * SCALE <= extent * SCALE) by (nonlinear_arith)
        requires 0 <= idx <= extent, SCALE == 10000i64;
    lemma_div_bounds(idx * SCALE, extent);
    lemma_div_is_ordered(idx * SCALE, extent * SCALE, extent);
    lemma_div_multiples_vanish(SCALE as int, extent);
}

/// For a well-formed camera, the ray through any pixel with a nonzero
/// direction is well formed and its direction is `pixel_dir`.
pub proof fn lemma_pixel_ray_wf(cam: Camera, row: int, col: int, w: int, h: int)
    requires
        camera_wf(cam),
        0 <= row < w,
        0 <= col < h,
        pixel_dir(cam, row, col, w, h) != (0int, 0int, 0int),
    ensures
        bounded(pixel_dir(cam, row, col, w, h), COORD_LIMIT as int),
        ray_wf(pixel_ray(cam, row, col, w, h)),
        pixel_ray(cam, row, col, w, h).direction@ == pixel_dir(cam, row, col, w, h),
{
    lemma_viewport_coord_range(row, w);
    lemma_viewport_coord_range(col, h);
    let u = viewport_coord(row, w);
    let v = viewport_coord(col, h);
    lemma_fmul_unit(u, cam.horizontal@.0, CAM_LIMIT as int);
    lemma_fmul_unit(u, cam.horizontal@.1, CAM_LIMIT as int);
    lemma_fmul_unit(u, cam.horizontal@.2, CAM_LIMIT as int);
    lemma_fmul_unit(v, cam.vertical@.0, CAM_LIMIT as int);
    lemma_fmul_unit(v, cam.vertical@.1, CAM_LIMIT as int);
    lemma_fmul_unit(v, cam.vertical@.2, CAM_LIMIT as int);
    lemma_nonzero_vls(pixel_dir(cam, row, col, w, h));
}

/// The background blend parameter lies in `[0, SCALE]`.
pub proof fn lemma_bg_t_range(ray: Ray)
    requires
        ray_wf(ray),
    ensures
        0 <= bg_t(ray) <= SCALE,
{
    lemma_unit_bounded(ray.direction@);
    let u = vunit(ray.direction@).1;
    lemma_div_bounds(u + SCALE, 2);
    lemma_div_is_ordered(u + SCALE, 2 * (SCALE as int), 2);
    lemma_div_multiples_vanish(SCALE as int, 2);
}

/// Every component of the background color lies in `[0, SCALE]`.
pub proof fn lemma_bg_color_range(ray: Ray)
    requires
        ray_wf(ray),
    ensures
        0 <= comp(bg_color(ray), 0) <= SCALE,
        0 <= comp(bg_color(ray), 1) <= SCALE,
        0 <= comp(bg_color(ray), 2) <= SCALE,
{
    lemma_bg_t_range(ray);
    let t = bg_t(ray);
    lemma_fmul_lerp(SCALE - t, white().0);
    lemma_fmul_lerp(SCALE - t, white().1);
    lemma_fmul_lerp(SCALE - t, white().2);
    lemma_fmul_lerp(t, sky_blue().0);
    lemma_fmul_lerp(t, sky_blue().1);
    lemma_fmul_lerp(t, sky_blue().2);
}

/// A color fraction in `[0, SCALE]` maps to a byte in `[0, 255]`.
pub proof fn lemma_frac_channel_range(c: int)
    requires
        0 <= c <= SCALE,
    ensures
        0 <= frac_channel(c) <= 255,
{
    lemma_div_bounds(c * 255999, 1000 * (SCALE as int));
    assert(0 <= c * 255999 <= 2559990000) by (nonlinear_arith)
        requires 0 <= c <= SCALE, SCALE == 10000i64;
    lemma_div_is_ordered(c * 255999, 2559990000, 10000000);
    lemma_fundamental_div_mod_converse_div(2559990000, 10000000, 255, 9990000);
}

/// Maps a normal component to its color byte.
fn to_channel_normal(v: i64) -> (r: u8)
    ensures
        r as int == normal_channel(v as int),
{
    proof {
        lemma_mul_mag(v as int + SCALE as int, 255999, 0x8000_0000_0000_8000, 255999);
    }
    let num: i128 = (v as i128 + SCALE as i128) * 255999;
    let q: i128 = div_floor_i128(num, 20000000);
    if q < 0 {
        0
    } else if q > 255 {
        255
    } else {
        q as u8
    }
}

/// Maps a color fraction to its color byte.
fn to_channel_frac(c: i64) -> (r: u8)
    requires
        0 <= c <= SCALE,
    ensures
        r as int == frac_channel(c as int),
{
    proof {
        lemma_frac_channel_range(c as int);
    }
    let num: i128 = (c as i128) * 255999;
    let q: i128 = div_floor_i128(num, 10000000);
    q as u8
}

/// The color of one ray against the scene: the oriented surface normal
/// mapped to RGB on a hit, the vertical background gradient otherwise, with
/// an opaque alpha byte.
pub fn ray_color<T: HittableObject>(ray: &Ray, word: &HitableList<T>) -> (color: Vec<u8>)
    requires
        ray_wf(*ray),
        all_wf(word.objects@),
    ensures
        color@.len() == 4,
        forall|k: int| 0 <= k < 4 ==> color@[k] as int == color_model(*ray, word.objects@, k),
{
    let mut record = HitRecord::default();
    let mut color: Vec<u8> = Vec::new();
    if word.hit(ray, 0, T_LIMIT, &mut record) {
        color.push(to_channel_normal(record.normal.x));
        color.push(to_channel_normal(record.normal.y));
        color.push(to_channel_normal(record.normal.z));
        color.push(255);
    } else {
        let unit_direction = Vec3::get_unit_vector(ray.direction());
        let t: i64 = div_floor_i128(unit_direction.y as i128 + SCALE as i128, 2) as i64;
        proof {
            lemma_bg_t_range(*ray);
            lemma_bg_color_range(*ray);
            lemma_fmul_lerp(SCALE as int - t as int, white().0);
            lemma_fmul_lerp(SCALE as int - t as int, white().1);
            lemma_fmul_lerp(SCALE as int - t as int, white().2);
            lemma_fmul_lerp(t as int, sky_blue().0);
            lemma_fmul_lerp(t as int, sky_blue().1);
            lemma_fmul_lerp(t as int, sky_blue().2);
        }
        let white_v = Vec3::new(SCALE, SCALE, SCALE);
        let sky_v = Vec3::new(5000, 7000, 10000);
        let color_v = white_v.scale(SCALE - t).add(sky_v.scale(t));
        proof {
            assert(color_v@ == bg_color(*ray));
        }
        color.push(to_channel_frac(color_v.x));
        color.push(to_channel_frac(color_v.y));
        color.push(to_channel_frac(color_v.z));
        color.push(255);
    }
    color
}

/// Renders the scene: one ray per pixel, viewport rows from top to bottom of
/// the buffer, four bytes per pixel.
pub fn render_image<T: HittableObject>(
    image_width: u32,
    image_height: u32,
    camera: Camera,
    word: &HitableList<T>,
) -> (image: Vec<u8>)
    requires
        1 <= image_width,
        1 <= image_height,
        camera_wf(camera),
        all_wf(word.objects@),
        forall|row: int, col: int|
            (0 <= row < image_width && 0 <= col < image_height) ==> #[trigger] pixel_dir(
                camera,
                row,
                col,
                image_width as int,
                image_height as int,
            ) != (0int, 0int, 0int),
    ensures
        image@.len() == 4 * (image_width as int) * (image_height as int),
        forall|i: int|
            0 <= i < image@.len() ==> image@[i] as int == byte_at(
                camera,
                word.objects@,
                image_width as int,
                image_height as int,
                i,
            ),
{
    let w = image_width;
    let h = image_height;
    let ghost wi = w as int;
    let ghost hi = h as int;
    let mut image: Vec<u8> = Vec::new();
    let mut col: u32 = h;
    proof {
        assert(4 * (wi * (hi - hi)) == 0) by (nonlinear_arith);
    }
    while col > 0
        invariant
            0 <= col <= h,
            1 <= w,
            1 <= h,
            wi == w as int,
            hi == h as int,
            camera_wf(camera),
            all_wf(word.objects@),
            forall|r: int, c: int|
                (0 <= r < wi && 0 <= c < hi) ==> #[trigger] pixel_dir(camera, r, c, wi, hi) != (
                    0int,
                    0int,
                    0int,
                ),
            image@.len() == 4 * (wi * (hi - col)),
            forall|i: int|
                0 <= i < image@.len() ==> image@[i] as int == byte_at(
                    camera,
                    word.objects@,
                    wi,
                    hi,
                    i,
                ),
        decreases col,
    {
        col = col - 1;
        let mut row: u32 = 0;
        proof {
            assert(4 * (wi * (hi - (col + 1))) == 4 * (wi * (hi - 1 - col) + 0))
                by (nonlinear_arith);
        }
        while row < w
            invariant
                0 <= row <= w,
                0 <= col < h,
                1 <= w,
                1 <= h,
                wi == w as int,
                hi == h as int,
                camera_wf(camera),
                all_wf(word.objects@),
                forall|r: int, c: int|
                    (0 <= r < wi && 0 <= c < hi) ==> #[trigger] pixel_dir(camera, r, c, wi, hi)
                        != (0int, 0int, 0int),
                image@.len() == 4 * (wi * (hi - 1 - col) + row),
                forall|i: int|
                    0 <= i < image@.len() ==> image@[i] as int == byte_at(
                        camera,
                        word.objects@,
                        wi,
                        hi,
                        i,
                    ),
            decreases w - row,
        {
            proof {
                lemma_viewport_coord_range(row as int, wi);
                lemma_viewport_coord_range(col as int, hi);
                lemma_mul_mag(row as int, SCALE as int, 0x1_0000_0000, 10000);
                lemma_mul_mag(col as int, SCALE as int, 0x1_0000_0000, 10000);
                lemma_pixel_ray_wf(camera, row as int, col as int, wi, hi);
                let uc = viewport_coord(row as int, wi);
                let vc = viewport_coord(col as int, hi);
                lemma_fmul_unit(uc, camera.horizontal@.0, CAM_LIMIT as int);
                lemma_fmul_unit(uc, camera.horizontal@.1, CAM_LIMIT as int);
                lemma_fmul_unit(uc, camera.horizontal@.2, CAM_LIMIT as int);
                lemma_fmul_unit(vc, camera.vertical@.0, CAM_LIMIT as int);
                lemma_fmul_unit(vc, camera.vertical@.1, CAM_LIMIT as int);
                lemma_fmul_unit(vc, camera.vertical@.2, CAM_LIMIT as int);
            }
            let u: i64 = div_floor_i128((row as i128) * (SCALE as i128), w as i128) as i64;
            let v: i64 = div_floor_i128((col as i128) * (SCALE as i128), h as i128) as i64;
            let dir: Vec3 = camera.lower_left_corner.add(camera.horizontal.scale(u)).add(
                camera.vertical.scale(v),
            ).sub(camera.origin);
            let ray = Ray { origin: camera.origin, direction: dir };
            proof {
                assert(dir@ == pixel_dir(camera, row as int, col as int, wi, hi));
                assert(ray == pixel_ray(camera, row as int, col as int, wi, hi));
            }
            let px = ray_color(&ray, word);
            let ghost base = image@.len() as int;
            image.push(px[0]);
            image.push(px[1]);
            image.push(px[2]);
            image.push(px[3]);
            proof {
                lemma_byte_at_unfold(camera, word.objects@, wi, hi, row as int, col as int, 0);
                lemma_byte_at_unfold(camera, word.objects@, wi, hi, row as int, col as int, 1);
                lemma_byte_at_unfold(camera, word.objects@, wi, hi, row as int, col as int, 2);
                lemma_byte_at_unfold(camera, word.objects@, wi, hi, row as int, col as int, 3);
                assert(base == 4 * ((hi - 1 - col) * wi + row)) by (nonlinear_arith)
                    requires base == 4 * (wi * (hi - 1 - col) + row);
            }
            row = row + 1;
        }
        proof {
            assert(4 * (wi * (hi - 1 - col) + wi) == 4 * (wi * (hi - col))) by (nonlinear_arith);
        }
    }
    proof {
        assert(4 * (wi * (hi - 0)) == 4 * wi * hi) by (nonlinear_arith);
    }
    image
}

/// Renders the scene; the buffer handed to the display surface.
pub fn get_image<T: HittableObject>(
    image_width: u32,
    image_height: u32,
    camera: Camera,
    word: &HitableList<T>,
) -> (image: Vec<u8>)
    requires
        1 <= image_width,
        1 <= image_height,
        camera_wf(camera),
        all_wf(word.objects@),
        forall|row: int, col: int|
            (0 <= row < image_width && 0 <= col < image_height) ==> #[trigger] pixel_dir(
                camera,
                row,
                col,
                image_width as int,
                image_height as int,
            ) != (0int, 0int, 0int),
    ensures
        image@.len() == 4 * (image_width as int) * (image_height as int),
        forall|i: int|
            0 <= i < image@.len() ==> image@[i] as int == byte_at(
                camera,
                word.objects@,
                image_width as int,
                image_height as int,
                i,
            ),
{
    render_image(image_width, image_height, camera, word)
}

/// Byte `4*((h-1-col)*w + row) + k` of the image is channel `k` of pixel
/// `(row, col)`.
pub proof fn lemma_byte_at_unfold<T: HittableObject>(
    cam: Camera,
    objs: Seq<T>,
    w: int,
    h: int,
    row: int,
    col: int,
    k: int,
)
    requires
        0 <= row < w,
        0 <= col < h,
        0 <= k < 4,
    ensures
        byte_at(cam, objs, w, h, 4 * ((h - 1 - col) * w + row) + k) == color_model(
            pixel_ray(cam, row, col, w, h),
            objs,
            k,
        ),
{
    let q = (h - 1 - col) * w + row;
    let i = 4 * q + k;
    lemma_fundamental_div_mod_converse_div(i, 4, q, k);
    lemma_fundamental_div_mod_converse_mod(i, 4, q, k);
    lemma_fundamental_div_mod_converse_div(q, w, h - 1 - col, row);
    lemma_fundamental_div_mod_converse_mod(q, w, h - 1 - col, row);
}

/// Rendering is deterministic: two buffers that both satisfy the render
/// contract for the same camera, scene and dimensions are byte-identical.
pub proof fn lemma_render_deterministic<T: HittableObject>(
    cam: Camera,
    objs: Seq<T>,
    w: int,
    h: int,
    a: Seq<u8>,
    b: Seq<u8>,
)
    requires
        a.len() == 4 * w * h,
        b.len() == 4 * w * h,
        forall|i: int| 0 <= i < a.len() ==> #[trigger] (a[i] as int) == byte_at(cam, objs, w, h, i),
        forall|i: int| 0 <= i < b.len() ==> #[trigger] (b[i] as int) == byte_at(cam, objs, w, h, i),
    ensures
        a == b,
{
    assert forall|i: int| 0 <= i < a.len() implies a[i] == b[i] by {
        assert(a[i] as int == byte_at(cam, objs, w, h, i));
        assert(b[i] as int == byte_at(cam, objs, w, h, i));
    }
    assert(a =~= b);
}

/// With no primitives in the scene, every pixel's color is the analytic
/// background gradient for its ray, and no channel leaves `[0, 255]`.
pub proof fn lemma_background_gradient<T: HittableObject>(
    cam: Camera,
    objs: Seq<T>,
    w: int,
    h: int,
    row: int,
    col: int,
    k: int,
)
    requires
        objs.len() == 0,
        camera_wf(cam),
        0 <= row < w,
        0 <= col < h,
        0 <= k < 4,
        pixel_dir(cam, row, col, w, h) != (0int, 0int, 0int),
    ensures
        ({
            let ray = pixel_ray(cam, row, col, w, h);
            let i = 4 * ((h - 1 - col) * w + row) + k;
            &&& byte_at(cam, objs, w, h, i) == if k == 3 {
                255int
            } else {
                frac_channel(comp(bg_color(ray), k))
            }
            &&& 0 <= byte_at(cam, objs, w, h, i) <= 255
        }),
{
    lemma_byte_at_unfold(cam, objs, w, h, row, col, k);
    lemma_pixel_ray_wf(cam, row, col, w, h);
    let ray = pixel_ray(cam, row, col, w, h);
    assert(best_of(objs, ray, 0, T_LIMIT as int) is None);
    if k != 3 {
        lemma_bg_color_range(ray);
        lemma_frac_channel_range(comp(bg_color(ray), k));
    }
}

} // verus!

//! The renderer: one primary ray for each pixel, the image cut into bands of
//! rows that are rendered one by one, independently of each other, and put
//! together in the frame buffer.

use vstd::prelude::*;
use crate::bvh::BVHNode;
use crate::camera::Camera;
use crate::cube::Cube;
use crate::framebuffer::{Framebuffer, lemma_position_in_buffer};
use crate::light::Light;
use crate::material::{Color, spec_vector3_to_color, vector3_to_color};
use crate::scalar::Scalar;
use crate::shading::{SceneView, ShadingParams, cast_ray, scene_view, spec_cast_ray};
use crate::sky::SkyMap;
use crate::textures::TextureManager;
use crate::vector::Vector3;

verus! {

/// What turns the position of a pixel into a direction in camera space.
#[derive(Clone, Copy, Debug, PartialEq, Eq, Structural)]
pub struct RenderConfig {
    /// The width of the image over its height.
    pub aspect_ratio: Scalar,
    /// The tangent of half the field of view.
    pub perspective_scale: Scalar,
    /// One over the width of the image.
    pub inv_width: Scalar,
    /// One over the height of the image.
    pub inv_height: Scalar,
}

/// The pixels of a band of rows, from row `start` up to row `end`.
#[derive(Debug)]
pub struct RowRange {
    pub start: i32,
    pub end: i32,
    pub pixels: Vec<Color>,
}

impl RenderConfig {
    /// The configuration for an image of `width` by `height` pixels.
    pub open spec fn spec_new(width: i32, height: i32, perspective_scale: Scalar) -> RenderConfig {
        RenderConfig {
            aspect_ratio: Scalar::spec_from_int(width).spec_div(Scalar::spec_from_int(height)),
            perspective_scale,
            inv_width: Scalar::spec_from_int(width).spec_recip(),
            inv_height: Scalar::spec_from_int(height).spec_recip(),
        }
    }

    /// The configuration for an image of `width` by `height` pixels, seen
    /// with a field of view whose half has the tangent `perspective_scale`.
    pub fn new(width: i32, height: i32, perspective_scale: Scalar) -> (config: RenderConfig)
        ensures
            config == RenderConfig::spec_new(width, height, perspective_scale),
    {
        let w: Scalar = Scalar::from_int(width);
        let h: Scalar = Scalar::from_int(height);
        RenderConfig {
            aspect_ratio: w.div(h),
            perspective_scale,
            inv_width: w.recip(),
            inv_height: h.recip(),
        }
    }
}

/// The horizontal screen coordinate of column `x`: its place from -1 at the
/// left to 1 at the right, times the aspect ratio and the perspective scale.
pub open spec fn spec_screen_x(x: i32, config: RenderConfig) -> Scalar {
    Scalar::spec_from_int(2).spec_mul(Scalar::spec_from_int(x)).spec_mul(config.inv_width).spec_sub(
        Scalar::spec_one(),
    ).spec_mul(config.aspect_ratio).spec_mul(config.perspective_scale)
}

/// The vertical screen coordinate of row `y`: its place from 1 at the top to
/// -1 at the bottom, times the perspective scale.
pub open spec fn spec_screen_y(y: i32, config: RenderConfig) -> Scalar {
    Scalar::spec_one().spec_sub(
        Scalar::spec_from_int(2).spec_mul(Scalar::spec_from_int(y)).spec_mul(config.inv_height),
    ).spec_mul(config.perspective_scale)
}

/// The direction in the world of the primary ray through the pixel in column
/// `x` of row `y`.
pub open spec fn spec_primary_direction(x: i32, y: i32, camera: Camera, config: RenderConfig)
    -> Vector3 {
    camera.spec_basis_change(
        (Vector3 {
            x: spec_screen_x(x, config),
            y: spec_screen_y(y, config),
            z: Scalar::spec_one().spec_neg(),
        }).spec_normalized(),
    )
}

/// The colour of the pixel in column `x` of row `y`: what arrives along its
/// primary ray, as a display colour.
#[verifier::opaque]
pub open spec fn spec_rendered_pixel(
    scene: SceneView,
    camera: Camera,
    config: RenderConfig,
    params: ShadingParams,
    x: int,
    y: int,
) -> Color {
    spec_vector3_to_color(
        spec_cast_ray(
            scene,
            camera.eye,
            spec_primary_direction(x as i32, y as i32, camera, config),
            0,
            params,
        ),
    )
}

/// The pixel in column `x` of row `y` in the pixels of a band that begins at
/// row `start`.
pub open spec fn band_pixel(pixels: Seq<Color>, start: int, width: int, x: int, y: int) -> Color {
    pixels[(y - start) * width + x]
}

/// The number of rows in each band but the last, when `height` rows are
/// dealt out to `bands` workers: `height / bands`, rounded up.
pub open spec fn spec_rows_per_band(height: int, bands: int) -> int {
    (height + bands - 1) / bands
}

/// The number of bands that are not empty.
pub open spec fn spec_band_count(height: int, rows: int) -> int {
    if height <= 0 || rows <= 0 {
        0
    } else {
        (height + rows - 1) / rows
    }
}

/// The first row of band `k`.
pub open spec fn spec_band_start(k: int, rows: int) -> int {
    k * rows
}

/// The row after the last row of band `k`.
pub open spec fn spec_band_end(k: int, rows: int, height: int) -> int {
    if (k + 1) * rows < height {
        (k + 1) * rows
    } else {
        height
    }
}

/// `bands` are the bands of an image of `height` rows for `workers` workers:
/// one after the other from row zero, each of `rows` rows but the last, which
/// ends with the image.
pub open spec fn is_banding(bands: Seq<(i32, i32)>, height: int, workers: int) -> bool {
    let rows = spec_rows_per_band(height, workers);
    &&& bands.len() == spec_band_count(height, rows)
    &&& bands.len() <= workers
    &&& forall|k: int|
        0 <= k < bands.len() ==> (#[trigger] bands[k]).0 == spec_band_start(k, rows) && bands[k].1
            == spec_band_end(k, rows, height)
}

/// The colour of one pixel.
fn render_pixel(
    x: i32,
    y: i32,
    bvh: &BVHNode,
    objects: &Vec<Cube>,
    camera: &Camera,
    lights: &Vec<Light>,
    texture_manager: &TextureManager,
    config: &RenderConfig,
    skybox: Option<&SkyMap>,
    params: &ShadingParams,
) -> (color: Color)
    requires
        bvh.well_formed(objects@),
    ensures
        color == spec_rendered_pixel(
            scene_view(*bvh, objects@, lights@, texture_manager@, skybox),
            *camera,
            *config,
            *params,
            x as int,
            y as int,
        ),
{
    proof {
        reveal(spec_rendered_pixel);
    }
    let one: Scalar = Scalar::one();
    let two: Scalar = Scalar::from_int(2);
    let screen_x: Scalar = two.mul(Scalar::from_int(x)).mul(config.inv_width).sub(one).mul(
        config.aspect_ratio,
    ).mul(config.perspective_scale);
    let screen_y: Scalar = one.sub(two.mul(Scalar::from_int(y)).mul(config.inv_height)).mul(
        config.perspective_scale,
    );
    let ray_direction: Vector3 = Vector3::new(screen_x, screen_y, one.neg()).normalized();
    let rotated_direction: Vector3 = camera.basis_change(&ray_direction);
    let pixel_color_vec: Vector3 = cast_ray(
        &camera.eye,
        &rotated_direction,
        bvh,
        objects,
        lights,
        0,
        texture_manager,
        skybox,
        params,
    );
    vector3_to_color(pixel_color_vec)
}

/// The pixels of the rows from `start_y` up to `end_y` of an image `width`
/// pixels wide, row by row.
pub fn render_row_range(
    start_y: i32,
    end_y: i32,
    width: i32,
    bvh: &BVHNode,
    objects: &Vec<Cube>,
    camera: &Camera,
    lights: &Vec<Light>,
    texture_manager: &TextureManager,
    config: &RenderConfig,
    skybox: Option<&SkyMap>,
    params: &ShadingParams,
) -> (pixels: Vec<Color>)
    requires
        bvh.well_formed(objects@),
        start_y <= end_y,
        0 <= width,
    ensures
        pixels@.len() == (end_y - start_y) * width,
        forall|x: int, y: int|
            0 <= x < width && start_y <= y < end_y ==> band_pixel(
                pixels@,
                start_y as int,
                width as int,
                x,
                y,
            ) == #[trigger] spec_rendered_pixel(
                scene_view(*bvh, objects@, lights@, texture_manager@, skybox),
                *camera,
                *config,
                *params,
                x,
                y,
            ),
{
    let ghost scene = scene_view(*bvh, objects@, lights@, texture_manager@, skybox);
    let mut pixels: Vec<Color> = Vec::new();
    let mut y: i32 = start_y;
    while y < end_y
        invariant
            bvh.well_formed(objects@),
            scene == scene_view(*bvh, objects@, lights@, texture_manager@, skybox),
            start_y <= y <= end_y,
            0 <= width,
            pixels@.len() == (y - start_y) * width,
            forall|xx: int, yy: int|
                0 <= xx < width && start_y <= yy < y ==> band_pixel(
                    pixels@,
                    start_y as int,
                    width as int,
                    xx,
                    yy,
                ) == #[trigger] spec_rendered_pixel(scene, *camera, *config, *params, xx, yy),
        decreases end_y - y,
    {
        let mut x: i32 = 0;
        while x < width
            invariant
                bvh.well_formed(objects@),
                scene == scene_view(*bvh, objects@, lights@, texture_manager@, skybox),
                start_y <= y < end_y,
                0 <= x <= width,
                pixels@.len() == (y - start_y) * width + x,
                forall|xx: int, yy: int|
                    0 <= xx < width && start_y <= yy < y ==> band_pixel(
                        pixels@,
                        start_y as int,
                        width as int,
                        xx,
                        yy,
                    ) == #[trigger] spec_rendered_pixel(scene, *camera, *config, *params, xx, yy),
                forall|xx: int|
                    0 <= xx < x ==> band_pixel(
                        pixels@,
                        start_y as int,
                        width as int,
                        xx,
                        y as int,
                    ) == #[trigger] spec_rendered_pixel(
                        scene,
                        *camera,
                        *config,
                        *params,
                        xx,
                        y as int,
                    ),
            decreases width - x,
        {
            let color: Color = render_pixel(
                x,
                y,
                bvh,
                objects,
                camera,
                lights,
                texture_manager,
                config,
                skybox,
                params,
            );
            let ghost before = pixels@;
            pixels.push(color);
            proof {
                assert forall|xx: int, yy: int|
                    0 <= xx < width && start_y <= yy < y implies band_pixel(
                    pixels@,
                    start_y as int,
                    width as int,
                    xx,
                    yy,
                ) == #[trigger] spec_rendered_pixel(scene, *camera, *config, *params, xx, yy) by {
                    lemma_band_index(xx, yy, start_y as int, y as int, width as int);
                    assert(band_pixel(before, start_y as int, width as int, xx, yy)
                        == spec_rendered_pixel(scene, *camera, *config, *params, xx, yy));
                }
                assert forall|xx: int| 0 <= xx < x + 1 implies band_pixel(
                    pixels@,
                    start_y as int,
                    width as int,
                    xx,
                    y as int,
                ) == #[trigger] spec_rendered_pixel(
                    scene,
                    *camera,
                    *config,
                    *params,
                    xx,
                    y as int,
                ) by {
                    if xx < x {
                        assert(band_pixel(before, start_y as int, width as int, xx, y as int)
                            == spec_rendered_pixel(scene, *camera, *config, *params, xx, y as int));
                    }
                }
            }
            x = x + 1;
        }
        proof {
            assert((y + 1 - start_y) * width == (y - start_y) * width + width)
                by (nonlinear_arith);
        }
        y = y + 1;
    }
    pixels
}

/// The pixel at `(x, y)` of a band lies before the first pixel of every later
/// row.
pub proof fn lemma_band_index(x: int, y: int, start: int, later: int, width: int)
    requires
        0 <= x < width,
        start <= y < later,
    ensures
        0 <= (y - start) * width + x < (later - start) * width,
{
    assert(0 <= (y - start) * width && (y - start) * width + width <= (later - start) * width)
        by (nonlinear_arith)
        requires
            0 <= y - start,
            y - start + 1 <= later - start,
            0 <= width,
    ;
}

/// Two positions of an image have two places in its buffer.
pub proof fn lemma_positions_distinct(x: int, y: int, other_x: int, other_y: int, width: int)
    requires
        0 <= x < width,
        0 <= other_x < width,
        x != other_x || y != other_y,
    ensures
        y * width + x != other_y * width + other_x,
{
    if y < other_y {
        assert(y * width + width <= other_y * width) by (nonlinear_arith)
            requires
                y + 1 <= other_y,
                0 <= width,
        ;
    } else if other_y < y {
        assert(other_y * width + width <= y * width) by (nonlinear_arith)
            requires
                other_y + 1 <= y,
                0 <= width,
        ;
    }
}

/// With `rows` rows to a band, the last band that is not empty is the first
/// to reach the end of the image.
pub proof fn lemma_band_count(height: int, rows: int)
    requires
        height > 0,
        rows > 0,
    ensures
        spec_band_count(height, rows) >= 1,
        (spec_band_count(height, rows) - 1) * rows < height <= spec_band_count(height, rows) * rows,
{
    let c = (height + rows - 1) / rows;
    let r = (height + rows - 1) % rows;
    vstd::arithmetic::div_mod::lemma_fundamental_div_mod(height + rows - 1, rows);
    vstd::arithmetic::div_mod::lemma_mod_bound(height + rows - 1, rows);
    assert(height + rows - 1 == rows * c + r);
    assert(rows * c == c * rows && (c - 1) * rows == c * rows - rows) by (nonlinear_arith);
    if c < 1 {
        assert(c * rows <= 0) by (nonlinear_arith)
            requires
                c <= 0,
                rows > 0,
        ;
    }
}

/// Dealing `height` rows out to `workers` workers gives each at least one
/// row, and needs no more bands than there are workers.
pub proof fn lemma_rows_per_band(height: int, workers: int)
    requires
        height > 0,
        workers > 0,
    ensures
        spec_rows_per_band(height, workers) >= 1,
        spec_rows_per_band(height, workers) <= height,
        spec_band_count(height, spec_rows_per_band(height, workers)) <= workers,
{
    let rows = spec_rows_per_band(height, workers);
    lemma_band_count(height, workers);
    assert(rows == spec_band_count(height, workers));
    assert(rows * workers >= height);
    assert(rows <= height) by (nonlinear_arith)
        requires
            (rows - 1) * workers < height,
            workers >= 1,
            rows >= 1,
    ;
    lemma_band_count(height, rows);
    let count = spec_band_count(height, rows);
    assert(count <= workers) by (nonlinear_arith)
        requires
            (count - 1) * rows < height,
            height <= rows * workers,
            rows >= 1,
    ;
}

/// The bands do not overlap and cover the image: each row lies in exactly
/// one band.
pub proof fn lemma_banding_partitions(bands: Seq<(i32, i32)>, height: int, workers: int, y: int)
    requires
        workers > 0,
        is_banding(bands, height, workers),
        0 <= y < height,
    ensures
        exists|k: int| 0 <= k < bands.len() && (#[trigger] bands[k]).0 <= y < bands[k].1,
        forall|k: int, m: int|
            0 <= k < bands.len() && 0 <= m < bands.len() && (#[trigger] bands[k]).0 <= y < bands[k].1
                && (#[trigger] bands[m]).0 <= y < bands[m].1 ==> k == m,
{
    let rows = spec_rows_per_band(height, workers);
    lemma_rows_per_band(height, workers);
    lemma_band_count(height, rows);
    let count = spec_band_count(height, rows);
    let k = y / rows;
    vstd::arithmetic::div_mod::lemma_fundamental_div_mod(y, rows);
    vstd::arithmetic::div_mod::lemma_mod_bound(y, rows);
    vstd::arithmetic::div_mod::lemma_div_pos_is_pos(y, rows);
    assert(rows * k == k * rows && (k + 1) * rows == k * rows + rows) by (nonlinear_arith);
    assert(k < count) by (nonlinear_arith)
        requires
            k * rows <= y,
            y < height,
            height <= count * rows,
            rows >= 1,
    ;
    assert(bands[k].0 <= y < bands[k].1);
    assert forall|a: int, b: int|
        0 <= a < bands.len() && 0 <= b < bands.len() && (#[trigger] bands[a]).0 <= y < bands[a].1
            && (#[trigger] bands[b]).0 <= y < bands[b].1 implies a == b by {
        assert(a * rows <= y < (a + 1) * rows);
        assert(b * rows <= y < (b + 1) * rows);
        assert(a == b) by (nonlinear_arith)
            requires
                a * rows <= y < (a + 1) * rows,
                b * rows <= y < (b + 1) * rows,
                rows >= 1,
        ;
    }
}

/// The bands of rows into which an image of `height` rows is cut for
/// `num_threads` workers: contiguous, each of `height / num_threads` rows,
/// rounded up, but the last, and none of them empty.
pub fn row_bands(height: i32, num_threads: usize) -> (bands: Vec<(i32, i32)>)
    requires
        num_threads >= 1,
    ensures
        is_banding(bands@, height as int, num_threads as int),
{
    let mut bands: Vec<(i32, i32)> = Vec::new();
    if height <= 0 {
        return bands;
    }
    proof {
        lemma_rows_per_band(height as int, num_threads as int);
    }
    let wide: u128 = (height as u128) + (num_threads as u128) - 1;
    let rows: i32 = (wide / (num_threads as u128)) as i32;
    let ghost count = spec_band_count(height as int, rows as int);
    proof {
        lemma_band_count(height as int, rows as int);
    }
    let mut start: i32 = 0;
    while start < height
        invariant
            height > 0,
            1 <= rows <= height,
            rows == spec_rows_per_band(height as int, num_threads as int),
            count == spec_band_count(height as int, rows as int),
            (count - 1) * rows < height <= count * rows,
            count <= num_threads,
            0 <= bands@.len() <= count,
            start == spec_band_start(bands@.len() as int, rows as int) || (bands@.len() == count
                && start == height),
            bands@.len() < count ==> start == spec_band_start(bands@.len() as int, rows as int),
            forall|k: int|
                0 <= k < bands@.len() ==> (#[trigger] bands@[k]).0 == spec_band_start(
                    k,
                    rows as int,
                ) && bands@[k].1 == spec_band_end(k, rows as int, height as int),
            bands@.len() == count ==> start >= height,
        decreases height - start,
    {
        let ghost k = bands@.len() as int;
        proof {
            assert(k < count);
            assert((k + 1) * rows == k * rows + rows) by (nonlinear_arith);
            if k + 1 < count {
                assert((k + 1) * rows < height) by (nonlinear_arith)
                    requires
                        k + 1 <= count - 1,
                        (count - 1) * rows < height,
                        rows >= 1,
                ;
            } else {
                assert((k + 1) * rows >= height);
            }
        }
        let end: i32 = if height - start > rows {
            start + rows
        } else {
            height
        };
        bands.push((start, end));
        start = end;
    }
    proof {
        let len = bands@.len() as int;
        if len < count {
            assert(len * rows <= (count - 1) * rows) by (nonlinear_arith)
                requires
                    len <= count - 1,
                    rows >= 1,
            ;
        }
    }
    bands
}

/// Writes the pixels of a band into the rows of the frame buffer that the
/// band stands for. Rows outside the image are left out.
pub fn write_band(framebuffer: &mut Framebuffer, band: &RowRange)
    requires
        old(framebuffer).well_formed(),
        band.start <= band.end,
        band.pixels@.len() == (band.end - band.start) * old(framebuffer).width,
    ensures
        final(framebuffer).well_formed(),
        final(framebuffer).width == old(framebuffer).width,
        final(framebuffer).height == old(framebuffer).height,
        final(framebuffer).background_color == old(framebuffer).background_color,
        final(framebuffer).current_color == if band.pixels@.len() > 0 {
            band.pixels@.last()
        } else {
            old(framebuffer).current_color
        },
        forall|x: int, y: int|
            old(framebuffer).in_bounds(x, y) ==> #[trigger] final(framebuffer).pixel(x, y) == if band.start
                <= y < band.end {
                band_pixel(band.pixels@, band.start as int, old(framebuffer).width as int, x, y)
            } else {
                old(framebuffer).pixel(x, y)
            },
{
    let width: i32 = framebuffer.width;
    let total: usize = band.pixels.len();
    let mut pixel_idx: usize = 0;
    let mut y: i32 = band.start;
    while y < band.end
        invariant
            total == band.pixels@.len(),
            framebuffer.well_formed(),
            framebuffer.width == old(framebuffer).width == width,
            framebuffer.height == old(framebuffer).height,
            framebuffer.background_color == old(framebuffer).background_color,
            band.start <= y <= band.end,
            band.pixels@.len() == (band.end - band.start) * width,
            pixel_idx == (y - band.start) * width,
            pixel_idx <= total,
            framebuffer.current_color == if pixel_idx > 0 {
                band.pixels@[pixel_idx - 1]
            } else {
                old(framebuffer).current_color
            },
            forall|xx: int, yy: int|
                old(framebuffer).in_bounds(xx, yy) ==> #[trigger] framebuffer.pixel(xx, yy) == if band.start
                    <= yy < y {
                    band_pixel(band.pixels@, band.start as int, width as int, xx, yy)
                } else {
                    old(framebuffer).pixel(xx, yy)
                },
        decreases band.end - y,
    {
        let mut x: i32 = 0;
        while x < width
            invariant
                total == band.pixels@.len(),
                framebuffer.well_formed(),
                framebuffer.width == old(framebuffer).width == width,
                framebuffer.height == old(framebuffer).height,
                framebuffer.background_color == old(framebuffer).background_color,
                band.start <= y < band.end,
                0 <= x <= width,
                band.pixels@.len() == (band.end - band.start) * width,
                pixel_idx == (y - band.start) * width + x,
                pixel_idx <= total,
                framebuffer.current_color == if pixel_idx > 0 {
                    band.pixels@[pixel_idx - 1]
                } else {
                    old(framebuffer).current_color
                },
                forall|xx: int, yy: int|
                    old(framebuffer).in_bounds(xx, yy) ==> #[trigger] framebuffer.pixel(xx, yy) == if band.start
                        <= yy < y || (yy == y && xx < x) {
                        band_pixel(band.pixels@, band.start as int, width as int, xx, yy)
                    } else {
                        old(framebuffer).pixel(xx, yy)
                    },
            decreases width - x,
        {
            proof {
                lemma_band_index(x as int, y as int, band.start as int, band.end as int, width as int);
            }
            let color: Color = band.pixels[pixel_idx];
            let ghost before = *framebuffer;
            framebuffer.set_current_color(color);
            framebuffer.set_pixel(x, y);
            proof {
                assert forall|xx: int, yy: int| old(framebuffer).in_bounds(xx, yy) implies #[trigger] framebuffer.pixel(
                    xx,
                    yy,
                ) == if band.start <= yy < y || (yy == y && xx < x + 1) {
                    band_pixel(band.pixels@, band.start as int, width as int, xx, yy)
                } else {
                    old(framebuffer).pixel(xx, yy)
                } by {
                    assert(before.pixel(xx, yy) == if band.start <= yy < y || (yy == y && xx < x) {
                        band_pixel(band.pixels@, band.start as int, width as int, xx, yy)
                    } else {
                        old(framebuffer).pixel(xx, yy)
                    });
                    if before.in_bounds(x as int, y as int) {
                        if xx == x && yy == y {
                        } else {
                            lemma_positions_distinct(xx, yy, x as int, y as int, width as int);
                            lemma_position_in_buffer(
                                xx,
                                yy,
                                width as int,
                                framebuffer.height as int,
                            );
                        }
                        lemma_position_in_buffer(
                            x as int,
                            y as int,
                            width as int,
                            framebuffer.height as int,
                        );
                    }
                }
            }
            pixel_idx = pixel_idx + 1;
            x = x + 1;
        }
        proof {
            assert((y + 1 - band.start) * width == (y - band.start) * width + width)
                by (nonlinear_arith);
        }
        y = y + 1;
    }
}

/// The colour of the last pixel of an image of `width` by `height` pixels.
pub open spec fn spec_last_pixel(
    scene: SceneView,
    camera: Camera,
    config: RenderConfig,
    params: ShadingParams,
    width: int,
    height: int,
) -> Color {
    spec_rendered_pixel(scene, camera, config, params, width - 1, height - 1)
}

/// Renders the image into the frame buffer, band by band, for `num_threads`
/// workers. The image does not depend on the number of workers: each pixel
/// gets the colour of its primary ray.
pub fn render(
    framebuffer: &mut Framebuffer,
    bvh: &BVHNode,
    objects: &Vec<Cube>,
    camera: &Camera,
    lights: &Vec<Light>,
    texture_manager: &TextureManager,
    config: &RenderConfig,
    skybox: Option<&SkyMap>,
    params: &ShadingParams,
    num_threads: usize,
)
    requires
        old(framebuffer).well_formed(),
        bvh.well_formed(objects@),
        num_threads >= 1,
    ensures
        final(framebuffer).well_formed(),
        final(framebuffer).width == old(framebuffer).width,
        final(framebuffer).height == old(framebuffer).height,
        final(framebuffer).background_color == old(framebuffer).background_color,
        final(framebuffer).current_color == if old(framebuffer).width > 0 && old(framebuffer).height
            > 0 {
            spec_last_pixel(
                scene_view(*bvh, objects@, lights@, texture_manager@, skybox),
                *camera,
                *config,
                *params,
                old(framebuffer).width as int,
                old(framebuffer).height as int,
            )
        } else {
            old(framebuffer).current_color
        },
        forall|x: int, y: int|
            old(framebuffer).in_bounds(x, y) ==> #[trigger] final(framebuffer).pixel(x, y)
                == spec_rendered_pixel(
                scene_view(*bvh, objects@, lights@, texture_manager@, skybox),
                *camera,
                *config,
                *params,
                x,
                y,
            ),
{
    let ghost scene = scene_view(*bvh, objects@, lights@, texture_manager@, skybox);
    let height: i32 = framebuffer.height;
    let width: i32 = framebuffer.width;
    let bands: Vec<(i32, i32)> = row_bands(height, num_threads);
    let ghost rows = spec_rows_per_band(height as int, num_threads as int);
    proof {
        if height > 0 {
            lemma_rows_per_band(height as int, num_threads as int);
            lemma_band_count(height as int, rows);
        }
    }
    let mut k: usize = 0;
    while k < bands.len()
        invariant
            framebuffer.well_formed(),
            framebuffer.width == old(framebuffer).width == width,
            framebuffer.height == old(framebuffer).height == height,
            framebuffer.background_color == old(framebuffer).background_color,
            bvh.well_formed(objects@),
            scene == scene_view(*bvh, objects@, lights@, texture_manager@, skybox),
            is_banding(bands@, height as int, num_threads as int),
            rows == spec_rows_per_band(height as int, num_threads as int),
            height > 0 ==> rows >= 1 && (bands@.len() - 1) * rows < height <= bands@.len() * rows,
            height <= 0 ==> bands@.len() == 0,
            0 <= k <= bands@.len(),
            framebuffer.current_color == if width > 0 && k > 0 {
                spec_rendered_pixel(
                    scene,
                    *camera,
                    *config,
                    *params,
                    width - 1,
                    spec_band_end(k - 1, rows, height as int) - 1,
                )
            } else {
                old(framebuffer).current_color
            },
            forall|x: int, y: int|
                old(framebuffer).in_bounds(x, y) && y < k * rows ==> #[trigger] framebuffer.pixel(
                    x,
                    y,
                ) == spec_rendered_pixel(scene, *camera, *config, *params, x, y),
        decreases bands@.len() - k,
    {
        let start: i32 = bands[k].0;
        let end: i32 = bands[k].1;
        proof {
            assert(bands@[k as int].0 == spec_band_start(k as int, rows));
            assert(bands@[k as int].1 == spec_band_end(k as int, rows, height as int));
            assert(0 <= k * rows && (k + 1) * rows == k * rows + rows) by (nonlinear_arith)
                requires
                    0 <= k,
                    rows >= 1,
            ;
            assert(k * rows < height) by (nonlinear_arith)
                requires
                    k <= bands@.len() - 1,
                    (bands@.len() - 1) * rows < height,
                    rows >= 1,
            ;
        }
        let pixels: Vec<Color> = render_row_range(
            start,
            end,
            width,
            bvh,
            objects,
            camera,
            lights,
            texture_manager,
            config,
            skybox,
            params,
        );
        let band = RowRange { start, end, pixels };
        let ghost before = *framebuffer;
        write_band(framebuffer, &band);
        proof {
            assert(start < end);
            if width > 0 {
                lemma_band_index(width - 1, end - 1, start as int, end as int, width as int);
                assert((end - start) * width == (end - 1 - start) * width + width)
                    by (nonlinear_arith);
                assert(band.pixels@.last() == band_pixel(
                    band.pixels@,
                    start as int,
                    width as int,
                    width - 1,
                    end - 1,
                ));
                assert(band_pixel(band.pixels@, start as int, width as int, width - 1, end - 1)
                    == spec_rendered_pixel(scene, *camera, *config, *params, width - 1, end - 1));
            } else {
                assert((end - start) * width == 0) by (nonlinear_arith)
                    requires
                        width == 0,
                ;
            }
        }
        proof {
            assert forall|x: int, y: int|
                old(framebuffer).in_bounds(x, y) && y < (k + 1) * rows implies #[trigger] framebuffer.pixel(
                x,
                y,
            ) == spec_rendered_pixel(scene, *camera, *config, *params, x, y) by {
                assert(before.in_bounds(x, y));
                if start <= y < end {
                    assert(band_pixel(band.pixels@, start as int, width as int, x, y)
                        == spec_rendered_pixel(scene, *camera, *config, *params, x, y));
                } else {
                    assert(y < k * rows);
                    assert(before.pixel(x, y) == spec_rendered_pixel(
                        scene,
                        *camera,
                        *config,
                        *params,
                        x,
                        y,
                    ));
                }
            }
        }
        k = k + 1;
    }
}

} // verus!

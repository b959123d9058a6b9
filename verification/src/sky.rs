//! The sky: a gradient over the height of the direction, or an environment
//! map in equirectangular projection.
//!
//! An environment map is a texture whose columns stand for the angle of the
//! direction round the vertical axis and whose rows stand for its angle above
//! the horizon. The map comes with the limits of its rows and columns, so that
//! the texel of a direction is found by comparing: the rows by the height of
//! the unit direction, the columns by the tangent of half its angle round the
//! axis, which grows with the angle.

use vstd::prelude::*;
use crate::scalar::Scalar;
use crate::textures::{CpuTexture, TextureManager, spec_pixel_color};
use crate::vector::{Vector3, plane_length, spec_plane_length};

verus! {

/// An environment map.
#[derive(Debug)]
pub struct SkyMap {
    /// The handle of the texture.
    pub texture: usize,
    /// The height of the unit direction at the upper edge of each row, and
    /// at the lower edge of the last: for a texture of `n` rows the cosines of
    /// `k / n` of a half turn, for `k` from zero to `n`.
    pub row_limits: Vec<Scalar>,
    /// The tangent of half the angle at the left edge of each column, and
    /// at the right edge of the last: for a texture of `n` columns the
    /// tangents of `k / n - 1 / 2` of a half turn, for `k` from zero to `n`.
    pub column_limits: Vec<Scalar>,
}

/// The colour with the given raw channels.
pub open spec fn spec_rgb(r: int, g: int, b: int) -> Vector3 {
    Vector3 { x: Scalar { raw: r as i64 }, y: Scalar { raw: g as i64 }, z: Scalar { raw: b as i64 } }
}

/// The blend `a * (1 - k) + b * k`.
pub open spec fn spec_blend(a: Vector3, b: Vector3, k: Scalar) -> Vector3 {
    a.spec_scale(Scalar::spec_one().spec_sub(k)).spec_add(b.spec_scale(k))
}

/// The colour of the gradient sky in a direction: over the height `t = (y +
/// 1) / 2` of the unit direction, dark red below 0.3, from there to crimson
/// at 0.6, and from there to dark orange at 1.
pub open spec fn spec_gradient_sky(dir: Vector3) -> Vector3 {
    let d = dir.spec_normalized();
    let t = d.y.spec_add(Scalar::spec_one()).spec_mul(Scalar { raw: 500_000_000 });
    let dark_red = spec_rgb(200_000_000, 50_000_000, 50_000_000);
    let crimson = spec_rgb(400_000_000, 80_000_000, 100_000_000);
    let dark_orange = spec_rgb(300_000_000, 100_000_000, 50_000_000);
    if t.raw < 300_000_000 {
        dark_red
    } else if t.raw < 600_000_000 {
        let k = t.spec_sub(Scalar { raw: 300_000_000 }).spec_div(Scalar { raw: 300_000_000 });
        spec_blend(dark_red, crimson, k)
    } else {
        let k = t.spec_sub(Scalar { raw: 600_000_000 }).spec_div(Scalar { raw: 400_000_000 });
        spec_blend(crimson, dark_orange, k)
    }
}

/// The tangent of half the angle of the vector `(b, a)`, which is the angle
/// whose sine is as `a` and whose cosine is as `b`: `a / (b + r)`, where `r`
/// is the length of the vector. It grows with the angle from minus a half
/// turn to a half turn; at a half turn itself it is the largest scalar, and
/// for the zero vector it is zero.
pub open spec fn spec_half_angle_tangent(a: Scalar, b: Scalar) -> Scalar {
    let reach = b.spec_add(spec_plane_length(a, b));
    if reach.raw == 0 {
        if a.raw == 0 && b.raw == 0 {
            Scalar::spec_zero()
        } else {
            Scalar { raw: i64::MAX }
        }
    } else {
        a.spec_div(reach)
    }
}

/// The first position from `from` on at which `value` lies above the limit
/// that follows, and the last position that has a limit to follow if there
/// is none: the row of a height among limits that fall.
pub open spec fn spec_first_above(limits: Seq<Scalar>, value: Scalar, from: int) -> int
    decreases limits.len() - from,
{
    if from + 2 >= limits.len() {
        from
    } else if value.raw > limits[from + 1].raw {
        from
    } else {
        spec_first_above(limits, value, from + 1)
    }
}

/// The first position from `from` on at which `value` lies below the limit
/// that follows, and the last position that has a limit to follow if there
/// is none: the column of a tangent among limits that rise.
pub open spec fn spec_first_below(limits: Seq<Scalar>, value: Scalar, from: int) -> int
    decreases limits.len() - from,
{
    if from + 2 >= limits.len() {
        from
    } else if value.raw < limits[from + 1].raw {
        from
    } else {
        spec_first_below(limits, value, from + 1)
    }
}

/// The column of the environment map in which a unit direction lies.
pub open spec fn spec_sky_column(sky: SkyMap, d: Vector3) -> int {
    spec_first_below(sky.column_limits@, spec_half_angle_tangent(d.x.spec_neg(), d.z.spec_neg()), 0)
}

/// The row of the environment map in which a unit direction lies.
pub open spec fn spec_sky_row(sky: SkyMap, d: Vector3) -> int {
    spec_first_above(sky.row_limits@, d.y, 0)
}

/// A position as a texel coordinate: the largest coordinate if it is beyond.
pub open spec fn spec_to_texel(k: int) -> u32 {
    if 0 <= k <= u32::MAX {
        k as u32
    } else {
        u32::MAX
    }
}

/// The colour of the environment map in a direction.
pub open spec fn spec_sky_map_color(textures: Seq<CpuTexture>, sky: SkyMap, dir: Vector3)
    -> Vector3 {
    let d = dir.spec_normalized();
    spec_pixel_color(
        textures,
        sky.texture,
        spec_to_texel(spec_sky_column(sky, d)),
        spec_to_texel(spec_sky_row(sky, d)),
    )
}

/// The colour of the sky in a direction: that of the environment map, if
/// there is one and its texture exists, else that of the gradient.
pub open spec fn spec_procedural_sky(
    textures: Seq<CpuTexture>,
    sky: Option<SkyMap>,
    dir: Vector3,
) -> Vector3 {
    match sky {
        Some(map) => {
            if map.texture < textures.len() {
                spec_sky_map_color(textures, map, dir)
            } else {
                spec_gradient_sky(dir)
            }
        },
        None => spec_gradient_sky(dir),
    }
}

/// The limits fall from one position to the next.
pub open spec fn spec_falling(limits: Seq<Scalar>) -> bool {
    forall|i: int, j: int| 0 <= i <= j < limits.len() ==> limits[i].raw >= limits[j].raw
}

/// The limits rise from one position to the next.
pub open spec fn spec_rising(limits: Seq<Scalar>) -> bool {
    forall|i: int, j: int| 0 <= i <= j < limits.len() ==> limits[i].raw <= limits[j].raw
}

/// Among limits that fall, the row of a height is the one whose limits
/// enclose it: the height lies above the lower limit of its row and not
/// above the upper one, but for the first and the last row, which take what
/// lies beyond.
pub proof fn lemma_row_encloses(limits: Seq<Scalar>, value: Scalar, from: int)
    requires
        spec_falling(limits),
        0 <= from,
        from + 2 <= limits.len(),
        from > 0 ==> value.raw <= limits[from].raw,
    ensures
        from <= spec_first_above(limits, value, from) <= limits.len() - 2,
        spec_first_above(limits, value, from) < limits.len() - 2 ==> value.raw > limits[spec_first_above(
            limits,
            value,
            from,
        ) + 1].raw,
        spec_first_above(limits, value, from) > 0 ==> value.raw <= limits[spec_first_above(
            limits,
            value,
            from,
        )].raw,
    decreases limits.len() - from,
{
    if from + 2 < limits.len() && value.raw <= limits[from + 1].raw {
        lemma_row_encloses(limits, value, from + 1);
    }
}

/// Among limits that rise, the column of a tangent is the one whose limits
/// enclose it: the tangent lies below the right limit of its column and not
/// below the left one, but for the first and the last column, which take
/// what lies beyond.
pub proof fn lemma_column_encloses(limits: Seq<Scalar>, value: Scalar, from: int)
    requires
        spec_rising(limits),
        0 <= from,
        from + 2 <= limits.len(),
        from > 0 ==> value.raw >= limits[from].raw,
    ensures
        from <= spec_first_below(limits, value, from) <= limits.len() - 2,
        spec_first_below(limits, value, from) < limits.len() - 2 ==> value.raw < limits[spec_first_below(
            limits,
            value,
            from,
        ) + 1].raw,
        spec_first_below(limits, value, from) > 0 ==> value.raw >= limits[spec_first_below(
            limits,
            value,
            from,
        )].raw,
    decreases limits.len() - from,
{
    if from + 2 < limits.len() && value.raw >= limits[from + 1].raw {
        lemma_column_encloses(limits, value, from + 1);
    }
}

/// The colour with the given raw channels.
fn rgb(r: i64, g: i64, b: i64) -> (c: Vector3)
    ensures
        c == spec_rgb(r as int, g as int, b as int),
{
    Vector3::new(Scalar::from_raw(r), Scalar::from_raw(g), Scalar::from_raw(b))
}

/// The blend `a * (1 - k) + b * k`.
fn blend(a: Vector3, b: Vector3, k: Scalar) -> (c: Vector3)
    ensures
        c == spec_blend(a, b, k),
{
    a.scale(Scalar::one().sub(k)).add(b.scale(k))
}

/// The colour of the gradient sky in a direction.
pub fn gradient_sky(dir: Vector3) -> (color: Vector3)
    ensures
        color == spec_gradient_sky(dir),
{
    let d: Vector3 = dir.normalized();
    let t: Scalar = d.y.add(Scalar::one()).mul(Scalar::from_raw(500_000_000));
    let dark_red: Vector3 = rgb(200_000_000, 50_000_000, 50_000_000);
    let crimson: Vector3 = rgb(400_000_000, 80_000_000, 100_000_000);
    let dark_orange: Vector3 = rgb(300_000_000, 100_000_000, 50_000_000);
    if t.raw < 300_000_000 {
        dark_red
    } else if t.raw < 600_000_000 {
        let k: Scalar = t.sub(Scalar::from_raw(300_000_000)).div(Scalar::from_raw(300_000_000));
        blend(dark_red, crimson, k)
    } else {
        let k: Scalar = t.sub(Scalar::from_raw(600_000_000)).div(Scalar::from_raw(400_000_000));
        blend(crimson, dark_orange, k)
    }
}

/// The tangent of half the angle whose sine is as `a` and whose cosine is as
/// `b`.
pub fn half_angle_tangent(a: Scalar, b: Scalar) -> (t: Scalar)
    ensures
        t == spec_half_angle_tangent(a, b),
{
    let reach: Scalar = b.add(plane_length(a, b));
    if reach.raw == 0 {
        if a.raw == 0 && b.raw == 0 {
            Scalar::zero()
        } else {
            Scalar::from_raw(i64::MAX)
        }
    } else {
        a.div(reach)
    }
}

/// The position among `limits` that fall at which `value` lies.
fn first_above(limits: &Vec<Scalar>, value: Scalar) -> (k: usize)
    ensures
        k == spec_first_above(limits@, value, 0),
{
    let mut k: usize = 0;
    while k + 2 < limits.len() && value.raw <= limits[k + 1].raw
        invariant
            spec_first_above(limits@, value, k as int) == spec_first_above(limits@, value, 0),
            k + 2 <= limits.len() || k == 0,
        decreases limits.len() - k,
    {
        k = k + 1;
    }
    k
}

/// The position among `limits` that rise at which `value` lies.
fn first_below(limits: &Vec<Scalar>, value: Scalar) -> (k: usize)
    ensures
        k == spec_first_below(limits@, value, 0),
{
    let mut k: usize = 0;
    while k + 2 < limits.len() && value.raw >= limits[k + 1].raw
        invariant
            spec_first_below(limits@, value, k as int) == spec_first_below(limits@, value, 0),
            k + 2 <= limits.len() || k == 0,
        decreases limits.len() - k,
    {
        k = k + 1;
    }
    k
}

/// A position as a texel coordinate.
fn to_texel(k: usize) -> (t: u32)
    ensures
        t == spec_to_texel(k as int),
{
    if k > u32::MAX as usize {
        u32::MAX
    } else {
        k as u32
    }
}

/// Whether the limits fall, or rise, from each position to the next.
fn is_monotonic(limits: &Vec<Scalar>, rising: bool) -> (b: bool)
    ensures
        rising ==> b == spec_rising(limits@),
        !rising ==> b == spec_falling(limits@),
{
    if limits.len() < 2 {
        return true;
    }
    let mut k: usize = 1;
    while k < limits.len()
        invariant
            1 <= k <= limits.len(),
            rising ==> spec_rising(limits@.subrange(0, k as int)),
            !rising ==> spec_falling(limits@.subrange(0, k as int)),
        decreases limits.len() - k,
    {
        let before: i64 = limits[k - 1].raw;
        let here: i64 = limits[k].raw;
        if (rising && before > here) || (!rising && before < here) {
            return false;
        }
        proof {
            let shorter = limits@.subrange(0, k as int);
            let longer = limits@.subrange(0, k + 1);
            assert forall|i: int, j: int| 0 <= i <= j < longer.len() implies (if rising {
                longer[i].raw <= longer[j].raw
            } else {
                longer[i].raw >= longer[j].raw
            }) by {
                if j < k {
                    assert(shorter[i] == longer[i] && shorter[j] == longer[j]);
                } else if i < k {
                    assert(shorter[i] == longer[i] && shorter[k - 1] == longer[k - 1]);
                }
            }
        }
        k = k + 1;
    }
    proof {
        assert(limits@.subrange(0, limits.len() as int) =~= limits@);
    }
    true
}

impl SkyMap {
    /// The map has limits for at least one row and one column, those of the
    /// rows fall and those of the columns rise.
    pub open spec fn well_formed(&self) -> bool {
        &&& self.row_limits@.len() >= 2
        &&& self.column_limits@.len() >= 2
        &&& spec_falling(self.row_limits@)
        &&& spec_rising(self.column_limits@)
    }

    /// Whether the limits of the map are in order.
    pub fn is_well_formed(&self) -> (b: bool)
        ensures
            b == self.well_formed(),
    {
        self.row_limits.len() >= 2 && self.column_limits.len() >= 2 && is_monotonic(
            &self.row_limits,
            false,
        ) && is_monotonic(&self.column_limits, true)
    }

    /// The column and the row of the map in which a unit direction lies.
    pub fn texel_of(&self, d: &Vector3) -> (texel: (usize, usize))
        ensures
            texel.0 == spec_sky_column(*self, *d),
            texel.1 == spec_sky_row(*self, *d),
    {
        let column: usize = first_below(&self.column_limits, half_angle_tangent(d.x.neg(), d.z.neg()));
        let row: usize = first_above(&self.row_limits, d.y);
        (column, row)
    }
}

/// The colour of the sky in a direction: that of the environment map, if
/// there is one and its texture exists, else that of the gradient.
pub fn procedural_sky(dir: Vector3, texture_manager: &TextureManager, skybox: Option<&SkyMap>) -> (color:
    Vector3)
    ensures
        color == spec_procedural_sky(
            texture_manager@,
            match skybox {
                Some(map) => Some(*map),
                None => None,
            },
            dir,
        ),
{
    match skybox {
        Some(map) => {
            match texture_manager.get_texture(map.texture) {
                Some(_) => {
                    let d: Vector3 = dir.normalized();
                    let (column, row) = map.texel_of(&d);
                    texture_manager.get_pixel_color(map.texture, to_texel(column), to_texel(row))
                },
                None => gradient_sky(dir),
            }
        },
        None => gradient_sky(dir),
    }
}

} // verus!

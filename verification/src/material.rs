//! Surface materials and the conversion between linear-light colours and
//! 8-bit display colours.

use vstd::prelude::*;
use crate::scalar::{Scalar, SCALE};
use crate::vector::Vector3;

verus! {

/// How a surface responds to light.
#[derive(Clone, Copy, Debug, PartialEq, Eq)]
pub struct Material {
    /// The base colour.
    pub diffuse: Vector3,
    /// The weights of the diffuse and of the specular term.
    pub albedo: [Scalar; 2],
    /// The Phong exponent.
    pub specular: u32,
    pub reflectivity: Scalar,
    pub transparency: Scalar,
    /// The index of refraction; zero for an opaque surface.
    pub refractive_index: Scalar,
    /// The handle of the texture that replaces the base colour, if any.
    pub texture: Option<usize>,
    /// The handle of the normal map, if any.
    pub normal_map_id: Option<usize>,
    pub emission: Vector3,
    pub emission_strength: Scalar,
}

/// An 8-bit colour with an alpha channel.
#[derive(Clone, Copy, Debug, PartialEq, Eq, Structural)]
pub struct Color {
    pub r: u8,
    pub g: u8,
    pub b: u8,
    pub a: u8,
}

/// A linear-light channel as a display channel: `c * 255`, rounded toward
/// zero and clamped to `0..=255`.
pub open spec fn channel_to_byte(c: Scalar) -> u8 {
    let scaled = c.spec_mul(Scalar::spec_from_int(255)).raw;
    if scaled <= 0 {
        0u8
    } else if scaled >= 255 * SCALE {
        255u8
    } else {
        (scaled as int / SCALE as int) as u8
    }
}

/// A display channel as a linear-light channel: `b / 255`.
pub open spec fn byte_to_channel(b: u8) -> Scalar {
    Scalar::spec_from_int(b as i32).spec_div(Scalar::spec_from_int(255))
}

/// The display colour of a linear-light colour, with full opacity.
pub open spec fn spec_vector3_to_color(v: Vector3) -> Color {
    Color { r: channel_to_byte(v.x), g: channel_to_byte(v.y), b: channel_to_byte(v.z), a: 255 }
}

/// The linear-light colour of a display colour.
pub open spec fn spec_color_to_vector3(color: Color) -> Vector3 {
    Vector3 {
        x: byte_to_channel(color.r),
        y: byte_to_channel(color.g),
        z: byte_to_channel(color.b),
    }
}

impl Color {
    /// The colour with the given channels.
    pub open spec fn spec_new(r: u8, g: u8, b: u8, a: u8) -> Color {
        Color { r, g, b, a }
    }

    /// Opaque black.
    pub open spec fn spec_black() -> Color {
        Color { r: 0, g: 0, b: 0, a: 255 }
    }

    /// Opaque white.
    pub open spec fn spec_white() -> Color {
        Color { r: 255, g: 255, b: 255, a: 255 }
    }

    /// The colour with the given channels.
    pub fn new(r: u8, g: u8, b: u8, a: u8) -> (c: Color)
        ensures
            c == Color::spec_new(r, g, b, a),
    {
        Color { r, g, b, a }
    }

    /// Opaque black.
    pub fn black() -> (c: Color)
        ensures
            c == Color::spec_black(),
    {
        Color { r: 0, g: 0, b: 0, a: 255 }
    }

    /// Opaque white.
    pub fn white() -> (c: Color)
        ensures
            c == Color::spec_white(),
    {
        Color { r: 255, g: 255, b: 255, a: 255 }
    }
}

impl Material {
    /// A material that neither reflects, transmits nor emits anything.
    pub open spec fn spec_black() -> Material {
        Material {
            diffuse: Vector3::spec_zero(),
            albedo: [Scalar::spec_zero(), Scalar::spec_zero()],
            specular: 0,
            reflectivity: Scalar::spec_zero(),
            transparency: Scalar::spec_zero(),
            refractive_index: Scalar::spec_zero(),
            texture: None,
            normal_map_id: None,
            emission: Vector3::spec_zero(),
            emission_strength: Scalar::spec_zero(),
        }
    }

    /// The material with the given properties.
    pub fn new(
        diffuse: Vector3,
        albedo: [Scalar; 2],
        specular: u32,
        reflectivity: Scalar,
        transparency: Scalar,
        refractive_index: Scalar,
        texture: Option<usize>,
        normal_map_id: Option<usize>,
        emission: Vector3,
        emission_strength: Scalar,
    ) -> (m: Material)
        ensures
            m == (Material {
                diffuse,
                albedo,
                specular,
                reflectivity,
                transparency,
                refractive_index,
                texture,
                normal_map_id,
                emission,
                emission_strength,
            }),
    {
        Material {
            diffuse,
            albedo,
            specular,
            reflectivity,
            transparency,
            refractive_index,
            texture,
            normal_map_id,
            emission,
            emission_strength,
        }
    }

    /// A material that neither reflects, transmits nor emits anything.
    pub fn black() -> (m: Material)
        ensures
            m == Material::spec_black(),
    {
        Material {
            diffuse: Vector3::zero(),
            albedo: [Scalar::zero(), Scalar::zero()],
            specular: 0,
            reflectivity: Scalar::zero(),
            transparency: Scalar::zero(),
            refractive_index: Scalar::zero(),
            texture: None,
            normal_map_id: None,
            emission: Vector3::zero(),
            emission_strength: Scalar::zero(),
        }
    }
}

/// A linear-light channel as a display channel.
fn to_byte(c: Scalar) -> (b: u8)
    ensures
        b == channel_to_byte(c),
{
    let scaled: i64 = c.mul(Scalar::from_int(255)).raw;
    if scaled <= 0 {
        0
    } else if scaled >= 255 * SCALE {
        255
    } else {
        (scaled / SCALE) as u8
    }
}

/// A display channel as a linear-light channel.
fn from_byte(b: u8) -> (c: Scalar)
    ensures
        c == byte_to_channel(b),
{
    Scalar::from_int(b as i32).div(Scalar::from_int(255))
}

/// The display colour of a linear-light colour: each channel times 255,
/// clamped to `0..=255`, with full opacity.
pub fn vector3_to_color(v: Vector3) -> (c: Color)
    ensures
        c == spec_vector3_to_color(v),
{
    Color { r: to_byte(v.x), g: to_byte(v.y), b: to_byte(v.z), a: 255 }
}

/// The linear-light colour of a display colour: each channel over 255.
pub fn color_to_vector3(color: Color) -> (v: Vector3)
    ensures
        v == spec_color_to_vector3(color),
{
    Vector3 { x: from_byte(color.r), y: from_byte(color.g), z: from_byte(color.b) }
}

} // verus!

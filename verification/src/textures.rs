//! Textures held in memory as linear-light pixels, and their lookup.

use vstd::prelude::*;
use crate::material::{Color, color_to_vector3, spec_color_to_vector3};
use crate::scalar::{Scalar, SCALE};
use crate::vector::Vector3;

verus! {

/// An image of `width` by `height` pixels, row by row from the top.
#[derive(Debug)]
pub struct CpuTexture {
    pub width: i32,
    pub height: i32,
    pub pixels: Vec<Vector3>,
}

/// The textures of a scene, each known by the handle it was given when added.
#[derive(Debug)]
pub struct TextureManager {
    pub textures: Vec<CpuTexture>,
}

/// The position in the pixel row of the texel at column `tx` and row `ty`,
/// each clamped to the image; `None` for an image without pixels.
pub open spec fn spec_texel_index(texture: CpuTexture, tx: u32, ty: u32) -> Option<int> {
    if texture.width <= 0 || texture.height <= 0 {
        None
    } else {
        let x = if tx < texture.width {
            tx as int
        } else {
            texture.width - 1
        };
        let y = if ty < texture.height {
            ty as int
        } else {
            texture.height - 1
        };
        if y * texture.width + x < texture.pixels@.len() {
            Some(y * texture.width + x)
        } else {
            None
        }
    }
}

/// The colour of the texel at column `tx` and row `ty` of the texture with
/// the given handle; white where there is no such texture or texel.
pub open spec fn spec_pixel_color(textures: Seq<CpuTexture>, handle: usize, tx: u32, ty: u32)
    -> Vector3 {
    if handle < textures.len() {
        match spec_texel_index(textures[handle as int], tx, ty) {
            Some(index) => textures[handle as int].pixels@[index],
            None => Vector3::spec_one(),
        }
    } else {
        Vector3::spec_one()
    }
}

/// The direction that a texel of a normal map stands for: red and green
/// stretched from `0..1` to `-1..1`, blue kept, the whole scaled to length one.
pub open spec fn spec_decode_normal(color: Vector3) -> Vector3 {
    let two = Scalar::spec_from_int(2);
    let one = Scalar::spec_one();
    (Vector3 {
        x: color.x.spec_mul(two).spec_sub(one),
        y: color.y.spec_mul(two).spec_sub(one),
        z: color.z,
    }).spec_normalized()
}

/// The normal at column `tx` and row `ty` of the normal map with the given
/// handle; `None` where there is no such map or texel.
pub open spec fn spec_normal_from_map(textures: Seq<CpuTexture>, handle: usize, tx: u32, ty: u32)
    -> Option<Vector3> {
    if handle < textures.len() {
        match spec_texel_index(textures[handle as int], tx, ty) {
            Some(index) => Some(spec_decode_normal(textures[handle as int].pixels@[index])),
            None => None,
        }
    } else {
        None
    }
}

/// The texel coordinate of the surface coordinate `t` on an image `extent`
/// texels wide: `t * extent`, rounded toward zero, and zero if negative.
pub open spec fn spec_texel_coordinate(t: Scalar, extent: i32) -> u32 {
    let scaled = t.spec_mul(Scalar::spec_from_int(extent)).raw;
    if scaled <= 0 {
        0u32
    } else if scaled as int / SCALE as int > u32::MAX {
        u32::MAX
    } else {
        (scaled as int / SCALE as int) as u32
    }
}

/// The texel coordinate of the surface coordinate `t` on an image `extent`
/// texels wide.
pub fn texel_coordinate(t: Scalar, extent: i32) -> (r: u32)
    ensures
        r == spec_texel_coordinate(t, extent),
{
    let scaled: i64 = t.mul(Scalar::from_int(extent)).raw;
    if scaled <= 0 {
        0
    } else if scaled / SCALE > u32::MAX as i64 {
        u32::MAX
    } else {
        (scaled / SCALE) as u32
    }
}

impl CpuTexture {
    /// The texture of an image given as display colours, row by row.
    pub fn from_image(width: i32, height: i32, colors: &Vec<Color>) -> (texture: CpuTexture)
        ensures
            texture.width == width,
            texture.height == height,
            texture.pixels@.len() == colors@.len(),
            forall|i: int|
                0 <= i < colors@.len() ==> texture.pixels@[i] == spec_color_to_vector3(colors@[i]),
    {
        let mut pixels: Vec<Vector3> = Vec::new();
        let mut i: usize = 0;
        while i < colors.len()
            invariant
                i <= colors.len(),
                pixels@.len() == i,
                forall|j: int| 0 <= j < i ==> pixels@[j] == spec_color_to_vector3(colors@[j]),
            decreases colors.len() - i,
        {
            pixels.push(color_to_vector3(colors[i]));
            i = i + 1;
        }
        CpuTexture { width, height, pixels }
    }

    /// The position of a texel in the pixel row.
    fn texel_index(&self, tx: u32, ty: u32) -> (r: Option<usize>)
        ensures
            match r {
                Some(index) => spec_texel_index(*self, tx, ty) == Some(index as int),
                None => spec_texel_index(*self, tx, ty).is_none(),
            },
    {
        if self.width <= 0 || self.height <= 0 {
            return None;
        }
        let x: u64 = if (tx as i64) < (self.width as i64) {
            tx as u64
        } else {
            (self.width - 1) as u64
        };
        let y: u64 = if (ty as i64) < (self.height as i64) {
            ty as u64
        } else {
            (self.height - 1) as u64
        };
        assert(y * (self.width as u64) <= 0x7fff_ffff * 0x7fff_ffff) by (nonlinear_arith)
            requires
                0 <= y <= 0x7fff_ffff,
                0 < self.width <= 0x7fff_ffff,
        ;
        let index: u64 = y * (self.width as u64) + x;
        if index < self.pixels.len() as u64 {
            Some(index as usize)
        } else {
            None
        }
    }
}

impl TextureManager {
    /// The textures held, by handle.
    pub open spec fn view(&self) -> Seq<CpuTexture> {
        self.textures@
    }

    /// A manager without textures.
    pub fn new() -> (manager: TextureManager)
        ensures
            manager@.len() == 0,
    {
        TextureManager { textures: Vec::new() }
    }

    /// Adds a texture and returns its handle.
    pub fn add_texture(&mut self, texture: CpuTexture) -> (handle: usize)
        ensures
            handle == old(self)@.len(),
            final(self)@ == old(self)@.push(texture),
    {
        let handle: usize = self.textures.len();
        self.textures.push(texture);
        handle
    }

    /// The texture with the given handle, if there is one.
    pub fn get_texture(&self, handle: usize) -> (texture: Option<&CpuTexture>)
        ensures
            match texture {
                Some(t) => handle < self@.len() && *t == self@[handle as int],
                None => handle >= self@.len(),
            },
    {
        if handle < self.textures.len() {
            Some(&self.textures[handle])
        } else {
            None
        }
    }

    /// The colour of a texel, the coordinates clamped to the image; white
    /// where the texture or the texel is missing.
    pub fn get_pixel_color(&self, handle: usize, tx: u32, ty: u32) -> (color: Vector3)
        ensures
            color == spec_pixel_color(self@, handle, tx, ty),
    {
        if handle < self.textures.len() {
            let texture = &self.textures[handle];
            match texture.texel_index(tx, ty) {
                Some(index) => texture.pixels[index],
                None => Vector3::one(),
            }
        } else {
            Vector3::one()
        }
    }

    /// The unit normal that a texel of a normal map stands for; `None` where
    /// the map or the texel is missing.
    pub fn get_normal_from_map(&self, handle: usize, tx: u32, ty: u32) -> (normal: Option<Vector3>)
        ensures
            normal == spec_normal_from_map(self@, handle, tx, ty),
    {
        if handle < self.textures.len() {
            let texture = &self.textures[handle];
            match texture.texel_index(tx, ty) {
                Some(index) => {
                    let color: Vector3 = texture.pixels[index];
                    let two: Scalar = Scalar::from_int(2);
                    let one: Scalar = Scalar::one();
                    let normal: Vector3 = Vector3::new(
                        color.x.mul(two).sub(one),
                        color.y.mul(two).sub(one),
                        color.z,
                    );
                    Some(normal.normalized())
                },
                None => None,
            }
        } else {
            None
        }
    }
}

impl Default for TextureManager {
    /// A manager without textures.
    fn default() -> (manager: TextureManager)
        ensures
            manager@.len() == 0,
    {
        TextureManager { textures: Vec::new() }
    }
}

} // verus!

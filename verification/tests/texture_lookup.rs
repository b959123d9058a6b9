use raytracer::material::Color;
use raytracer::scalar::Scalar;
use raytracer::textures::{texel_coordinate, CpuTexture, TextureManager};
use raytracer::vector::Vector3;

fn s(thousandths: i64) -> Scalar {
    Scalar::from_raw(thousandths * 1_000_000)
}

fn v(x: i64, y: i64, z: i64) -> Vector3 {
    Vector3::new(s(x), s(y), s(z))
}

/// A texture of 3 by 2 texels; texel (x, y) has red x / 10 and green y / 10.
fn swatch() -> CpuTexture {
    let mut pixels = Vec::new();
    for y in 0..2 {
        for x in 0..3 {
            pixels.push(v(x * 100, y * 100, 500));
        }
    }
    CpuTexture { width: 3, height: 2, pixels }
}

#[test]
fn handles_count_up_from_zero() {
    let mut manager = TextureManager::new();
    assert!(manager.get_texture(0).is_none());
    assert_eq!(manager.add_texture(swatch()), 0);
    assert_eq!(manager.add_texture(swatch()), 1);
    assert_eq!(manager.get_texture(1).unwrap().width, 3);
    assert!(manager.get_texture(2).is_none());
    assert!(TextureManager::default().get_texture(0).is_none());
}

#[test]
fn texel_lookup() {
    let mut manager = TextureManager::new();
    let handle = manager.add_texture(swatch());
    for y in 0..2u32 {
        for x in 0..3u32 {
            assert_eq!(
                manager.get_pixel_color(handle, x, y),
                v(x as i64 * 100, y as i64 * 100, 500)
            );
        }
    }
}

#[test]
fn texel_coordinates_are_clamped_to_the_image() {
    let mut manager = TextureManager::new();
    let handle = manager.add_texture(swatch());
    assert_eq!(manager.get_pixel_color(handle, 3, 0), v(200, 0, 500));
    assert_eq!(manager.get_pixel_color(handle, 0, 2), v(0, 100, 500));
    assert_eq!(manager.get_pixel_color(handle, u32::MAX, u32::MAX), v(200, 100, 500));
}

#[test]
fn missing_texture_is_white() {
    let mut manager = TextureManager::new();
    assert_eq!(manager.get_pixel_color(0, 0, 0), v(1000, 1000, 1000));
    manager.add_texture(swatch());
    assert_eq!(manager.get_pixel_color(1, 0, 0), v(1000, 1000, 1000));
    assert_eq!(manager.get_pixel_color(usize::MAX, 0, 0), v(1000, 1000, 1000));
}

#[test]
fn texture_without_pixels_is_white() {
    let mut manager = TextureManager::new();
    let empty = manager.add_texture(CpuTexture { width: 0, height: 0, pixels: vec![] });
    assert_eq!(manager.get_pixel_color(empty, 0, 0), v(1000, 1000, 1000));
    let negative = manager.add_texture(CpuTexture { width: -3, height: 2, pixels: vec![v(0, 0, 0)] });
    assert_eq!(manager.get_pixel_color(negative, 0, 0), v(1000, 1000, 1000));
    // fewer pixels than the extent promises
    let short = manager.add_texture(CpuTexture { width: 3, height: 2, pixels: vec![v(100, 0, 0)] });
    assert_eq!(manager.get_pixel_color(short, 0, 0), v(100, 0, 0));
    assert_eq!(manager.get_pixel_color(short, 1, 0), v(1000, 1000, 1000));
    assert_eq!(manager.get_pixel_color(short, 0, 1), v(1000, 1000, 1000));
}

#[test]
fn texture_from_an_image() {
    let colors = vec![
        Color::new(255, 0, 51, 255),
        Color::new(0, 255, 0, 0),
        Color::new(0, 0, 0, 255),
        Color::new(255, 255, 255, 255),
    ];
    let texture = CpuTexture::from_image(2, 2, &colors);
    assert_eq!((texture.width, texture.height), (2, 2));
    assert_eq!(
        texture.pixels,
        vec![v(1000, 0, 200), v(0, 1000, 0), v(0, 0, 0), v(1000, 1000, 1000)]
    );
}

#[test]
fn normal_from_a_map() {
    let mut manager = TextureManager::new();
    // (0.5, 0.5, 1) stands for the normal straight up from the surface
    let flat = manager.add_texture(CpuTexture {
        width: 2,
        height: 1,
        pixels: vec![v(500, 500, 1000), v(1000, 500, 0)],
    });
    assert_eq!(manager.get_normal_from_map(flat, 0, 0), Some(v(0, 0, 1000)));
    // (1, 0.5, 0) stands for (1, 0, 0)
    assert_eq!(manager.get_normal_from_map(flat, 1, 0), Some(v(1000, 0, 0)));
    assert_eq!(manager.get_normal_from_map(flat, 9, 9), Some(v(1000, 0, 0)));
}

#[test]
fn normal_from_a_slanted_texel() {
    let mut manager = TextureManager::new();
    // (1, 1, 1) stands for (1, 1, 1) / sqrt(3)
    let map = manager.add_texture(CpuTexture { width: 1, height: 1, pixels: vec![v(1000, 1000, 1000)] });
    let n = manager.get_normal_from_map(map, 0, 0).unwrap();
    assert_eq!((n.x.raw, n.y.raw, n.z.raw), (577_350_269, 577_350_269, 577_350_269));
}

#[test]
fn no_normal_without_a_map() {
    let mut manager = TextureManager::new();
    assert_eq!(manager.get_normal_from_map(0, 0, 0), None);
    let empty = manager.add_texture(CpuTexture { width: 0, height: 0, pixels: vec![] });
    assert_eq!(manager.get_normal_from_map(empty, 0, 0), None);
    assert_eq!(manager.get_normal_from_map(empty + 1, 0, 0), None);
}

#[test]
fn surface_coordinate_to_texel_coordinate() {
    assert_eq!(texel_coordinate(s(0), 16), 0);
    assert_eq!(texel_coordinate(s(500), 16), 8);
    assert_eq!(texel_coordinate(s(999), 16), 15);
    assert_eq!(texel_coordinate(s(1000), 16), 16);
    assert_eq!(texel_coordinate(s(300), 3), 0);
    assert_eq!(texel_coordinate(s(350), 3), 1);
    assert_eq!(texel_coordinate(s(-500), 16), 0);
    assert_eq!(texel_coordinate(s(500), -16), 0);
    assert_eq!(texel_coordinate(s(500), 0), 0);
    assert_eq!(texel_coordinate(Scalar::from_raw(i64::MAX), i32::MAX), u32::MAX);
}

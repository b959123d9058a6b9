use raytracer::bvh::BVHNode;
use raytracer::camera::Camera;
use raytracer::cube::Cube;
use raytracer::framebuffer::Framebuffer;
use raytracer::light::Light;
use raytracer::material::Material;
use raytracer::scalar::Scalar;
use raytracer::scene::scene_lights;
use raytracer::shading::ShadingParams;
use raytracer::textures::{CpuTexture, TextureManager};
use raytracer::vector::Vector3;
use raytracer::{render, RenderConfig};

fn s(thousandths: i64) -> Scalar {
    Scalar::from_raw(thousandths * 1_000_000)
}

fn v(x: i64, y: i64, z: i64) -> Vector3 {
    Vector3::new(s(x), s(y), s(z))
}

/// The image of the scene below, row by row, each pixel as red, green and
/// blue in hexadecimal, as the formulas of the shading engine give it.
const IMAGE: [&str; 14] = [
    "5c1217 5c1217 5c1217 5c1217 5c1317 5c1317 5c1317 5c1317 5d1317 5d1317 5d1317 5d1317 5d1317 5c1317 5c1317 5c1317 5c1317 5c1217 5c1217 5c1217",
    "581216 581216 581216 591216 591216 591216 591216 591216 591216 591216 591216 591216 591216 591216 591216 591216 591216 591216 581216 581216",
    "551115 551115 551115 551115 551115 551115 551115 551115 551115 551115 551115 551115 551115 551115 551115 551115 551115 551115 551115 551115",
    "511114 511114 511114 511114 511114 511114 511114 511114 511114 511114 511114 511114 511114 511114 511114 511114 511114 511114 511114 511114",
    "4d1013 4d1013 4d1013 4d1013 4d1013 4d1013 4d1013 4d1013 4d1013 4d1013 4d1013 4d1013 4d1013 4d1013 4d1013 4d1013 4d1013 4d1013 4d1013 4d1013",
    "4a1012 4a1012 491012 9f0000 a30000 a70000 009a00 009e00 00dd00 ef0000 481012 481012 3b2029 3c212a 3c212a 3d222b 3d222c 491012 491012 4a1012",
    "460f11 460f11 450f11 9c0000 a00000 a40000 009700 2e201d 4a2924 ef7038 f17139 440f11 392028 3a2029 3a2129 3b212a 3b212b 450f11 450f11 460f11",
    "420f10 420f10 420f10 990000 9d0000 a10000 1e1412 234f13 276715 3f1f1b 362a51 400e10 371f27 381f28 382028 392029 392129 410e10 420f10 420f10",
    "3f0e0f 3e0e0f 3e0e0f 3d0e0f 00007b 00007e 1d1412 5f4d13 876714 3d1f1a 36294f 3c0e0f 361f26 361f27 361f27 371f28 372028 3d0e0f 3e0e0f 3e0e0f",
    "3b0e0e 3b0d0e 3a0d0e 3a0d0e 000024 000025 2f2a00 5e4c12 886713 3a1d18 4a2e28 380d0e 341e25 341e25 341e26 351f26 351f27 3a0d0e 3a0d0e 3b0d0e",
    "370d0d 370d0d 360d0d 360d0d 350d0d 350d0d 350d0d 231712 281913 291914 392821 340d0d 340d0d 340d0d 350d0d 350d0d 350d0d 360d0d 360d0d 370d0d",
    "340c0d 330c0c 330c0c 330c0c 330c0c 330c0c 330c0c 330c0c ffcd44 ffcf45 ffd145 ffd246 330c0c 330c0c 330c0c 330c0c 330c0c 330c0c 330c0c 330c0c",
    "330c0c 330c0c 330c0c 330c0c 330c0c 330c0c 330c0c 330c0c ffa331 ffa532 ffa733 ffa834 330c0c 330c0c 330c0c 330c0c 330c0c 330c0c 330c0c 330c0c",
    "330c0c 330c0c 330c0c 330c0c 330c0c 330c0c 330c0c 330c0c ffa130 ffa331 ffa432 ffa633 330c0c 330c0c 330c0c 330c0c 330c0c 330c0c 330c0c 330c0c",
];

#[test]
fn scene_with_texture_mirror_glass_and_glow() {
    let mut textures = TextureManager::new();
    let quarters = textures.add_texture(CpuTexture {
        width: 2,
        height: 2,
        pixels: vec![v(1000, 0, 0), v(0, 1000, 0), v(0, 0, 1000), v(1000, 1000, 0)],
    });
    let none = v(0, 0, 0);
    let matte = Material::new(
        v(800, 300, 300),
        [s(900), s(100)],
        10,
        s(0),
        s(0),
        s(0),
        Some(quarters),
        None,
        none,
        s(0),
    );
    let mirror =
        Material::new(v(200, 200, 300), [s(600), s(400)], 50, s(400), s(0), s(0), None, None, none, s(0));
    let glass = Material::new(
        v(500, 500, 500),
        [s(300), s(200)],
        20,
        s(100),
        s(600),
        s(1300),
        None,
        None,
        none,
        s(0),
    );
    let glow = Material::new(
        v(950, 600, 300),
        [s(900), s(100)],
        15,
        s(0),
        s(0),
        s(0),
        None,
        None,
        v(1000, 450, 150),
        s(1200),
    );
    let cubes = vec![
        Cube::new(v(-1200, 0, 0), s(1500), matte),
        Cube::new(v(1200, 0, -500), s(1500), mirror),
        Cube::new(v(0, 300, 2000), s(800), glass),
        Cube::new(v(0, -1500, 500), s(1000), glow),
    ];
    let mut indices: Vec<usize> = (0..cubes.len()).collect();
    let bvh = BVHNode::build(&cubes, &mut indices);
    let sun = Light::new(v(5000, 5000, 5000), v(1000, 900, 800), s(1500));
    let lights = scene_lights(sun, &cubes);
    assert_eq!(lights.len(), 2);
    let camera = Camera::new(v(1000, 1500, 6000), v(0, 0, 0), v(0, 1000, 0));
    let (width, height) = (20, 14);
    let config = RenderConfig::new(width, height, s(350));
    let mut fb = Framebuffer::new(width, height);
    render(
        &mut fb,
        &bvh,
        &cubes,
        &camera,
        &lights,
        &textures,
        &config,
        None,
        &ShadingParams::default(),
        3,
    );
    let mut rows = Vec::new();
    for y in 0..height {
        let row: Vec<String> = (0..width)
            .map(|x| {
                let c = fb.get_pixel_color(x, y).unwrap();
                assert_eq!(c.a, 255);
                format!("{:02x}{:02x}{:02x}", c.r, c.g, c.b)
            })
            .collect();
        rows.push(row.join(" "));
    }
    assert_eq!(rows, IMAGE);
}

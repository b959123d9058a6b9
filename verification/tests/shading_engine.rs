use raytracer::bvh::BVHNode;
use raytracer::cast_ray;
use raytracer::cube::Cube;
use raytracer::light::Light;
use raytracer::material::Material;
use raytracer::ray_intersect::RayIntersect;
use raytracer::scalar::Scalar;
use raytracer::shading::{cast_shadow, offset_origin, ShadingParams};
use raytracer::sky::gradient_sky;
use raytracer::textures::TextureManager;
use raytracer::vector::Vector3;

fn s(thousandths: i64) -> Scalar {
    Scalar::from_raw(thousandths * 1_000_000)
}

fn v(x: i64, y: i64, z: i64) -> Vector3 {
    Vector3::new(s(x), s(y), s(z))
}

fn raw3(x: i64, y: i64, z: i64) -> Vector3 {
    Vector3::new(Scalar::from_raw(x), Scalar::from_raw(y), Scalar::from_raw(z))
}

fn material(
    diffuse: Vector3,
    albedo: (i64, i64),
    reflectivity: i64,
    transparency: i64,
    index: i64,
) -> Material {
    Material::new(
        diffuse,
        [s(albedo.0), s(albedo.1)],
        10,
        s(reflectivity),
        s(transparency),
        s(index),
        None,
        None,
        v(0, 0, 0),
        s(0),
    )
}

fn plain() -> Material {
    material(v(800, 300, 300), (900, 100), 0, 0, 0)
}

struct Scene {
    cubes: Vec<Cube>,
    bvh: BVHNode,
    lights: Vec<Light>,
    textures: TextureManager,
}

fn scene(cubes: Vec<Cube>, lights: Vec<Light>) -> Scene {
    let mut indices: Vec<usize> = (0..cubes.len()).collect();
    let bvh = BVHNode::build(&cubes, &mut indices);
    Scene { cubes, bvh, lights, textures: TextureManager::new() }
}

fn trace(scene: &Scene, origin: Vector3, direction: Vector3, max_depth: u16) -> Vector3 {
    let params = ShadingParams { max_depth, shadow_attenuation: s(700) };
    cast_ray(
        &origin,
        &direction,
        &scene.bvh,
        &scene.cubes,
        &scene.lights,
        0,
        &scene.textures,
        None,
        &params,
    )
}

fn horizon() -> Vector3 {
    raw3(333_333_332, 69_999_999, 83_333_332)
}

#[test]
fn default_parameters() {
    let params = ShadingParams::default();
    assert_eq!(params.max_depth, 2);
    assert_eq!(params.shadow_attenuation, s(700));
}

#[test]
fn sky_is_dark_red_below() {
    assert_eq!(gradient_sky(v(0, -1000, 0)), v(200, 50, 50));
    // t = (y + 1) / 2 is below 0.3 as long as y is below -0.4
    assert_eq!(gradient_sky(v(0, -500, -1000)), v(200, 50, 50));
}

#[test]
fn sky_is_dark_orange_above() {
    assert_eq!(gradient_sky(v(0, 1000, 0)), v(300, 100, 50));
    assert_eq!(gradient_sky(v(0, 7000, 0)), v(300, 100, 50));
}

#[test]
fn sky_at_the_horizon() {
    // t = 0.5, two thirds of the way from dark red to crimson
    assert_eq!(gradient_sky(v(0, 0, -1000)), horizon());
    assert_eq!(gradient_sky(v(1000, 0, 0)), horizon());
}

#[test]
fn sky_between_crimson_and_dark_orange() {
    assert_eq!(gradient_sky(v(1000, 1000, 0)), raw3(336_611_652, 92_677_669, 68_305_825));
}

#[test]
fn ray_that_hits_nothing_sees_the_sky() {
    let scene = scene(vec![Cube::new(v(0, 0, 0), s(1500), plain())], vec![]);
    assert_eq!(trace(&scene, v(0, 5000, 5000), v(0, 0, -1000), 2), horizon());
    assert_eq!(trace(&scene, v(0, 0, 5000), v(0, 1000, 0), 2), v(300, 100, 50));
}

#[test]
fn ray_beyond_the_deepest_level_sees_the_sky() {
    let scene = scene(vec![Cube::new(v(0, 0, 0), s(1500), plain())], vec![]);
    let params = ShadingParams { max_depth: 2, shadow_attenuation: s(700) };
    let origin = v(0, 0, 5000);
    let direction = v(0, 0, -1000);
    let deep = cast_ray(
        &origin,
        &direction,
        &scene.bvh,
        &scene.cubes,
        &scene.lights,
        3,
        &scene.textures,
        None,
        &params,
    );
    assert_eq!(deep, horizon());
    let deepest = cast_ray(
        &origin,
        &direction,
        &scene.bvh,
        &scene.cubes,
        &scene.lights,
        u32::MAX,
        &scene.textures,
        None,
        &params,
    );
    assert_eq!(deepest, horizon());
    // at the deepest level itself the box is still seen: without light it is black
    let last = cast_ray(
        &origin,
        &direction,
        &scene.bvh,
        &scene.cubes,
        &scene.lights,
        2,
        &scene.textures,
        None,
        &params,
    );
    assert_eq!(last, v(0, 0, 0));
}

#[test]
fn light_straight_in_front() {
    let sun = Light::new(v(0, 0, 5000), v(1000, 1000, 1000), s(1000));
    let scene = scene(vec![Cube::new(v(0, 0, 0), s(1500), plain())], vec![sun]);
    // diffuse 0.9 * (0.8, 0.3, 0.3) and specular 0.1 * (1, 1, 1)
    assert_eq!(trace(&scene, v(0, 0, 5000), v(0, 0, -1000), 2), v(820, 370, 370));
}

#[test]
fn light_from_the_side() {
    let sun = Light::new(v(5000, 5000, 5000), v(1000, 1000, 1000), s(1500));
    let scene = scene(vec![Cube::new(v(0, 0, 0), s(1500), plain())], vec![sun]);
    assert_eq!(
        trace(&scene, v(0, 0, 5000), v(0, 0, -1000), 2),
        raw3(556_561_077, 208_833_804, 208_833_804)
    );
}

#[test]
fn light_behind_the_surface_adds_nothing() {
    let sun = Light::new(v(0, 0, -5000), v(1000, 1000, 1000), s(1000));
    let scene = scene(vec![Cube::new(v(0, 0, 0), s(1500), plain())], vec![sun]);
    assert_eq!(trace(&scene, v(0, 0, 5000), v(0, 0, -1000), 2), v(0, 0, 0));
}

#[test]
fn two_lights_add_up() {
    let a = Light::new(v(0, 0, 5000), v(1000, 0, 0), s(1000));
    let b = Light::new(v(0, 0, 5000), v(0, 1000, 500), s(1000));
    let scene = scene(vec![Cube::new(v(0, 0, 0), s(1500), plain())], vec![a, b]);
    // diffuse 0.9 * (0.8 * 1, 0.3 * 1, 0.3 * 0.5), specular 0.1 * (1, 1, 0.5)
    assert_eq!(trace(&scene, v(0, 0, 5000), v(0, 0, -1000), 2), v(820, 370, 185));
}

#[test]
fn shadow_takes_part_of_the_light_away() {
    let front = Light::new(v(0, 0, 5000), v(1000, 1000, 1000), s(1000));
    let origin = v(0, 2000, 5000);
    let direction = v(0, 0, 750).sub(origin).normalized();
    let cube = Cube::new(v(0, 0, 0), s(1500), plain());
    let blocker = Cube::new(v(0, 0, 3000), s(500), plain());

    let lit = scene(vec![cube], vec![front]);
    assert_eq!(trace(&lit, origin, direction, 2), raw3(756_780_335, 306_780_335, 306_780_335));

    let shadowed = scene(vec![cube, blocker], vec![front]);
    assert_eq!(
        trace(&shadowed, origin, direction, 2),
        raw3(227_034_100, 92_034_100, 92_034_100)
    );
}

#[test]
fn shadow_intensity() {
    let front = Light::new(v(0, 0, 5000), v(1000, 1000, 1000), s(1000));
    let cube = Cube::new(v(0, 0, 0), s(1500), plain());
    let blocker = Cube::new(v(0, 0, 3000), s(500), plain());
    let beyond = Cube::new(v(0, 0, 7000), s(500), plain());
    let hit = cube.ray_intersect(&v(0, 2000, 5000), &v(0, 0, 750).sub(v(0, 2000, 5000)).normalized());
    assert!(hit.is_intersecting);
    let params = ShadingParams { max_depth: 2, shadow_attenuation: s(700) };

    let open = scene(vec![cube], vec![]);
    assert_eq!(cast_shadow(&hit, &front, &open.bvh, &open.cubes, &params), s(0));
    let blocked = scene(vec![cube, blocker], vec![]);
    assert_eq!(cast_shadow(&hit, &front, &blocked.bvh, &blocked.cubes, &params), s(700));
    // a box behind the light casts no shadow
    let behind = scene(vec![cube, beyond], vec![]);
    assert_eq!(cast_shadow(&hit, &front, &behind.bvh, &behind.cubes, &params), s(0));
    // the attenuation is a parameter
    let dark = ShadingParams { max_depth: 2, shadow_attenuation: s(1000) };
    assert_eq!(cast_shadow(&hit, &front, &blocked.bvh, &blocked.cubes, &dark), s(1000));
}

#[test]
fn emission_needs_no_light() {
    let glow = Material::new(
        v(950, 600, 300),
        [s(900), s(100)],
        15,
        s(0),
        s(0),
        s(0),
        None,
        None,
        v(1000, 450, 150),
        s(1200),
    );
    let scene = scene(vec![Cube::new(v(0, 0, 0), s(1500), glow)], vec![]);
    assert_eq!(trace(&scene, v(0, 0, 5000), v(0, 0, -1000), 2), v(1140, 324, 54));
}

#[test]
fn faint_emission_is_left_out() {
    let mut glow = plain();
    glow.emission = v(1000, 1000, 1000);
    glow.emission_strength = s(10);
    let scene = scene(vec![Cube::new(v(0, 0, 0), s(1500), glow)], vec![]);
    assert_eq!(trace(&scene, v(0, 0, 5000), v(0, 0, -1000), 2), v(0, 0, 0));
}

#[test]
fn mirror_shows_the_sky() {
    let mirror = material(v(0, 0, 0), (0, 0), 500, 0, 0);
    let scene = scene(vec![Cube::new(v(0, 0, 0), s(1500), mirror)], vec![]);
    // head on: half of the sky at the horizon
    assert_eq!(
        trace(&scene, v(0, 0, 5000), v(0, 0, -1000), 2),
        raw3(166_666_666, 34_999_999, 41_666_666)
    );
    // downward at 45 degrees: half of the dark red below
    let down = v(0, -1000, -1000).normalized();
    assert_eq!(trace(&scene, v(0, 4250, 5000), down, 2), v(100, 25, 25));
}

#[test]
fn weak_mirror_is_no_mirror() {
    let mirror = material(v(0, 0, 0), (0, 0), 50, 0, 0);
    let scene = scene(vec![Cube::new(v(0, 0, 0), s(1500), mirror)], vec![]);
    assert_eq!(trace(&scene, v(0, 0, 5000), v(0, 0, -1000), 2), v(0, 0, 0));
}

#[test]
fn glass_lets_the_sky_through() {
    let glass = material(v(0, 0, 0), (0, 0), 0, 500, 1000);
    let scene = scene(vec![Cube::new(v(0, 0, 0), s(1500), glass)], vec![]);
    let origin = v(0, 0, 5000);
    let direction = v(0, 0, -1000);
    // with no level below the first, the refracted ray sees the sky at once
    assert_eq!(trace(&scene, origin, direction, 0), raw3(166_666_666, 34_999_999, 41_666_666));
    // else it passes the near and the far face, each taking half
    for depth in 1..=3 {
        assert_eq!(
            trace(&scene, origin, direction, depth),
            raw3(83_333_333, 17_499_999, 20_833_333)
        );
    }
}

#[test]
fn total_internal_reflection_adds_nothing() {
    // index 0 makes eta the largest scalar: no refracted ray at a slant
    let glass = material(v(0, 0, 0), (0, 0), 0, 500, 0);
    let scene = scene(vec![Cube::new(v(0, 0, 0), s(1500), glass)], vec![]);
    let origin = v(3000, 0, 4000);
    let direction = v(-600, 0, -800);
    assert_eq!(trace(&scene, origin, direction, 2), v(0, 0, 0));
}

#[test]
fn facing_mirrors_come_to_an_end() {
    let mirror = material(v(0, 0, 0), (0, 0), 1000, 0, 0);
    let scene = scene(
        vec![Cube::new(v(0, 0, -2000), s(1000), mirror), Cube::new(v(0, 0, 2000), s(1000), mirror)],
        vec![],
    );
    for depth in [0, 1, 2, 5, 20, 200] {
        assert_eq!(trace(&scene, v(0, 0, 0), v(0, 0, -1000), depth), horizon());
    }
}

#[test]
fn secondary_ray_starts_off_the_surface() {
    let cube = Cube::new(v(0, 0, 0), s(1500), plain());
    let hit = cube.ray_intersect(&v(0, 0, 5000), &v(0, 0, -1000));
    // into the surface: against the normal
    assert_eq!(
        offset_origin(&hit, &v(0, 0, -1000)),
        raw3(0, 0, 749_900_000)
    );
    // away from it, or along it: with the normal
    assert_eq!(offset_origin(&hit, &v(0, 0, 1000)), raw3(0, 0, 750_100_000));
    assert_eq!(offset_origin(&hit, &v(1000, 0, 0)), raw3(0, 0, 750_100_000));
    assert_eq!(offset_origin(&hit, &v(0, 0, 0)), raw3(0, 0, 750_100_000));
}

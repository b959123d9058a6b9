use raytracer::cube::Cube;
use raytracer::light::Light;
use raytracer::material::Material;
use raytracer::scalar::Scalar;
use raytracer::scene::scene_lights;
use raytracer::vector::Vector3;

fn s(thousandths: i64) -> Scalar {
    Scalar::from_raw(thousandths * 1_000_000)
}

fn v(x: i64, y: i64, z: i64) -> Vector3 {
    Vector3::new(s(x), s(y), s(z))
}

fn emitting(strength: i64) -> Material {
    Material::new(
        v(950, 600, 300),
        [s(900), s(100)],
        15,
        s(0),
        s(0),
        s(0),
        None,
        None,
        v(1000, 450, 150),
        s(strength),
    )
}

#[test]
fn light_keeps_what_it_is_given() {
    let light = Light::new(v(5000, 8000, 5000), v(1000, 700, 500), s(1300));
    assert_eq!(light.position, v(5000, 8000, 5000));
    assert_eq!(light.color, v(1000, 700, 500));
    assert_eq!(light.intensity, s(1300));
}

#[test]
fn scene_without_emission_has_the_sun_alone() {
    let sun = Light::new(v(5000, 8000, 5000), v(1000, 700, 500), s(1300));
    let cubes = vec![Cube::new(v(0, 0, 0), s(1500), emitting(0))];
    assert_eq!(scene_lights(sun, &cubes), vec![sun]);
    assert_eq!(scene_lights(sun, &vec![]), vec![sun]);
}

#[test]
fn each_emissive_primitive_is_a_light_at_its_centre() {
    let sun = Light::new(v(5000, 8000, 5000), v(1000, 700, 500), s(1300));
    let cubes = vec![
        Cube::new(v(-2500, 0, 0), s(1500), emitting(0)),
        Cube::new(v(0, 0, -1000), s(1500), emitting(1200)),
        Cube::new(v(2500, 0, 0), s(1500), emitting(-100)),
        Cube::new_rect(v(1000, 2000, 3000), s(500), s(700), s(900), emitting(1)),
    ];
    let lights = scene_lights(sun, &cubes);
    assert_eq!(
        lights,
        vec![
            sun,
            Light::new(v(0, 0, -1000), v(1000, 450, 150), s(2400)),
            Light::new(v(1000, 2000, 3000), v(1000, 450, 150), s(2)),
        ]
    );
}

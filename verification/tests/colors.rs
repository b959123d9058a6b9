use raytracer::material::{color_to_vector3, vector3_to_color, Color, Material};
use raytracer::scalar::Scalar;
use raytracer::vector::Vector3;

fn s(thousandths: i64) -> Scalar {
    Scalar::from_raw(thousandths * 1_000_000)
}

fn v(x: i64, y: i64, z: i64) -> Vector3 {
    Vector3::new(s(x), s(y), s(z))
}

#[test]
fn display_colour_of_a_linear_colour() {
    // 0.5 * 255 = 127.5, rounded toward zero
    assert_eq!(vector3_to_color(v(500, 1000, 0)), Color::new(127, 255, 0, 255));
    assert_eq!(vector3_to_color(v(200, 50, 50)), Color::new(51, 12, 12, 255));
}

#[test]
fn display_colour_is_clamped() {
    assert_eq!(vector3_to_color(v(2000, 1001, 999)), Color::new(255, 255, 254, 255));
    assert_eq!(vector3_to_color(v(-1000, -1, 0)), Color::new(0, 0, 0, 255));
    let far = Scalar::from_raw(i64::MAX);
    let low = Scalar::from_raw(i64::MIN);
    assert_eq!(vector3_to_color(Vector3::new(far, low, far)), Color::new(255, 0, 255, 255));
}

#[test]
fn linear_colour_of_a_display_colour() {
    assert_eq!(color_to_vector3(Color::new(255, 0, 51, 255)), v(1000, 0, 200));
    let grey = color_to_vector3(Color::new(128, 128, 128, 7));
    assert_eq!(grey.x.raw, 501_960_784);
    assert_eq!(grey.x, grey.y);
    assert_eq!(grey.y, grey.z);
}

#[test]
fn every_display_colour_survives_the_round_trip_but_for_rounding() {
    for b in 0..=255u8 {
        let back = vector3_to_color(color_to_vector3(Color::new(b, b, b, 255)));
        // b / 255 is rounded down, so the way back may fall one short
        assert!(back.r == b || back.r + 1 == b, "{} became {}", b, back.r);
        assert_eq!(back.a, 255);
    }
}

#[test]
fn named_colours() {
    assert_eq!(Color::black(), Color::new(0, 0, 0, 255));
    assert_eq!(Color::white(), Color::new(255, 255, 255, 255));
}

#[test]
fn black_material_is_all_zero() {
    let m = Material::black();
    assert_eq!(m.diffuse, Vector3::zero());
    assert_eq!(m.albedo, [Scalar::zero(), Scalar::zero()]);
    assert_eq!(m.specular, 0);
    assert_eq!(m.reflectivity, Scalar::zero());
    assert_eq!(m.transparency, Scalar::zero());
    assert_eq!(m.refractive_index, Scalar::zero());
    assert_eq!(m.texture, None);
    assert_eq!(m.normal_map_id, None);
    assert_eq!(m.emission, Vector3::zero());
    assert_eq!(m.emission_strength, Scalar::zero());
}

#[test]
fn material_keeps_what_it_is_given() {
    let m = Material::new(
        v(150, 100, 200),
        [s(900), s(100)],
        90,
        s(100),
        s(500),
        s(1300),
        Some(3),
        Some(4),
        v(1000, 450, 150),
        s(1200),
    );
    assert_eq!(m.diffuse, v(150, 100, 200));
    assert_eq!(m.albedo, [s(900), s(100)]);
    assert_eq!(m.specular, 90);
    assert_eq!(m.reflectivity, s(100));
    assert_eq!(m.transparency, s(500));
    assert_eq!(m.refractive_index, s(1300));
    assert_eq!(m.texture, Some(3));
    assert_eq!(m.normal_map_id, Some(4));
    assert_eq!(m.emission, v(1000, 450, 150));
    assert_eq!(m.emission_strength, s(1200));
}

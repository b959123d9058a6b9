use raytracer::scalar::Scalar;
use raytracer::snell::{reflect, refract};
use raytracer::vector::Vector3;

fn s(thousandths: i64) -> Scalar {
    Scalar::from_raw(thousandths * 1_000_000)
}

fn v(x: i64, y: i64, z: i64) -> Vector3 {
    Vector3::new(s(x), s(y), s(z))
}

fn face_normals() -> [Vector3; 6] {
    [
        v(1000, 0, 0),
        v(-1000, 0, 0),
        v(0, 1000, 0),
        v(0, -1000, 0),
        v(0, 0, 1000),
        v(0, 0, -1000),
    ]
}

#[test]
fn reflection_at_the_floor() {
    assert_eq!(reflect(&v(1000, -1000, 0), &v(0, 1000, 0)), v(1000, 1000, 0));
    assert_eq!(reflect(&v(600, 0, -800), &v(0, 0, 1000)), v(600, 0, 800));
    assert_eq!(reflect(&v(600, 0, -800), &v(0, 0, -1000)), v(600, 0, 800));
}

#[test]
fn reflection_along_the_normal_turns_round() {
    for n in face_normals() {
        assert_eq!(reflect(&n, &n), n.neg());
        assert_eq!(reflect(&n.neg(), &n), n);
    }
}

#[test]
fn reflecting_twice_at_a_face_gives_the_vector_back() {
    let vectors = [
        v(600, 0, -800),
        v(-123, 456, 789),
        v(0, 0, 0),
        v(1, -1, 1),
        Vector3::new(Scalar::from_raw(1), Scalar::from_raw(-2), Scalar::from_raw(3)),
        Vector3::new(
            Scalar::from_raw(i64::MAX / 2),
            Scalar::from_raw(-(i64::MAX / 2)),
            Scalar::from_raw(i64::MAX / 2),
        ),
    ];
    for n in face_normals() {
        for x in vectors {
            let once = reflect(&x, &n);
            assert_eq!(reflect(&once, &n), x);
            assert_eq!(once.length(), x.length());
        }
    }
}

#[test]
fn reflection_keeps_unit_length() {
    let unit = v(600, 0, -800);
    assert_eq!(unit.length(), s(1000));
    for n in face_normals() {
        assert_eq!(reflect(&unit, &n).length(), s(1000));
    }
}

#[test]
fn reflecting_twice_at_a_slanted_normal_is_not_exact() {
    // three billionths along x, mirrored at the unit normal (0.6, 0.8, 0):
    // every product is rounded toward zero
    let n = v(600, 800, 0);
    let x = Vector3::new(Scalar::from_raw(3), Scalar::zero(), Scalar::zero());
    let once = reflect(&x, &n);
    assert_eq!(once, Vector3::new(Scalar::from_raw(2), Scalar::from_raw(-1), Scalar::zero()));
    let twice = reflect(&once, &n);
    assert_eq!(twice, Vector3::new(Scalar::from_raw(1), Scalar::from_raw(-2), Scalar::zero()));
    assert_ne!(twice, x);
    // with larger components the vector comes back within a few billionths
    let x = Vector3::new(Scalar::from_raw(123_456_789), Scalar::from_raw(-987_654_321), Scalar::from_raw(5));
    let twice = reflect(&reflect(&x, &n), &n);
    assert_eq!(
        twice,
        Vector3::new(Scalar::from_raw(123_456_792), Scalar::from_raw(-987_654_317), Scalar::from_raw(5))
    );
    // and where no product is rounded it comes back itself
    assert_eq!(reflect(&reflect(&v(1000, 1000, 1000), &n), &n), v(1000, 1000, 1000));
}

#[test]
fn index_of_one_does_not_bend() {
    let n = v(0, 0, 1000);
    assert_eq!(refract(&v(0, 0, -1000), &n, s(1000)), v(0, 0, -1000));
    assert_eq!(refract(&v(600, 0, -800), &n, s(1000)), v(600, 0, -800));
    // and on the way out
    assert_eq!(refract(&v(0, 0, 1000), &n, s(1000)), v(0, 0, 1000));
    assert_eq!(refract(&v(600, 0, 800), &n, s(1000)), v(600, 0, 800));
}

#[test]
fn index_of_one_bends_within_rounding() {
    // the square of the cosine 0.123456789 is no whole number of billionths
    let raw3 = |x: i64, y: i64, z: i64| {
        Vector3::new(Scalar::from_raw(x), Scalar::from_raw(y), Scalar::from_raw(z))
    };
    let n = v(0, 0, 1000);
    assert_eq!(refract(&raw3(0, 0, -123_456_789), &n, s(1000)), raw3(0, 0, -123_456_785));
    assert_eq!(
        refract(&raw3(992_349_440, 0, -123_456_789), &n, s(1000)),
        raw3(992_349_440, 0, -123_456_785)
    );
}

#[test]
fn index_of_one_bends_by_no_more_than_the_root_of_a_billionth() {
    let raw3 = |x: i64, y: i64, z: i64| {
        Vector3::new(Scalar::from_raw(x), Scalar::from_raw(y), Scalar::from_raw(z))
    };
    let n = v(0, 0, 1000);
    // the worst case: the square of the cosine is rounded to nothing
    assert_eq!(refract(&raw3(0, 0, -31_622), &n, s(1000)), raw3(0, 0, 0));
    assert_eq!(refract(&raw3(0, 0, -31_623), &n, s(1000)), raw3(0, 0, -31_622));
    assert_eq!(refract(&raw3(1000, 0, -31_624), &n, s(1000)), raw3(1000, 0, -31_622));
    // and over many directions and normals
    let normals = [v(0, 0, 1000), v(600, 0, 800), v(-1000, 0, 0), v(12, -345, 938), v(577, 577, 577)];
    for i in -20..=20i64 {
        for j in -20..=20i64 {
            for k in [-977i64, -31, 0, 1, 450] {
                let incident = v(i * 49, j * 47, k).normalized();
                for n in normals {
                    let bent = refract(&incident, &n, s(1000));
                    assert!((bent.x.raw - incident.x.raw).abs() <= 31_623);
                    assert!((bent.y.raw - incident.y.raw).abs() <= 31_623);
                    assert!((bent.z.raw - incident.z.raw).abs() <= 31_623);
                }
            }
        }
    }
}

#[test]
fn reflection_is_the_exact_one_within_seven_billionths() {
    let normals = [v(0, 0, 1000), v(600, 0, 800), v(-1000, 0, 0), v(12, -345, 938), v(577, 577, 577), v(1000, 1000, -1000)];
    let billion: i128 = 1_000_000_000;
    for i in -9..=9i64 {
        for j in -9..=9i64 {
            for k in [-999_999_999i64, -31, 0, 1, 123_456_789_012] {
                let x = Vector3::new(
                    Scalar::from_raw(i * 111_111_111_111),
                    Scalar::from_raw(j * 98_765_432),
                    Scalar::from_raw(k),
                );
                for n in normals {
                    let r = reflect(&x, &n);
                    let dot: i128 = x.x.raw as i128 * n.x.raw as i128
                        + x.y.raw as i128 * n.y.raw as i128
                        + x.z.raw as i128 * n.z.raw as i128;
                    for (found, c, m) in [(r.x, x.x, n.x), (r.y, x.y, n.y), (r.z, x.z, n.z)] {
                        let exact = c.raw as i128 * billion * billion - 2 * m.raw as i128 * dot;
                        let off = found.raw as i128 * billion * billion - exact;
                        assert!(off.abs() < 7 * billion * billion, "{:?} {:?}", x, n);
                    }
                }
            }
        }
    }
}

fn exact_unit_normals() -> [Vector3; 5] {
    [v(600, 800, 0), v(0, -600, 800), v(360, 480, -800), v(280, 0, 960), v(0, 0, -1000)]
}

fn raw(x: i64, y: i64, z: i64) -> Vector3 {
    Vector3::new(Scalar::from_raw(x), Scalar::from_raw(y), Scalar::from_raw(z))
}

fn exact_dot(a: &Vector3, b: &Vector3) -> i128 {
    a.x.raw as i128 * b.x.raw as i128
        + a.y.raw as i128 * b.y.raw as i128
        + a.z.raw as i128 * b.z.raw as i128
}

#[test]
fn reflecting_twice_at_a_slanted_unit_normal() {
    let x = raw(123_456_789, -987_654_321, 555_555_555);
    let expected = [
        (raw(982_716_048, 158_024_691, 555_555_555), raw(123_456_792, -987_654_317, 555_555_555)),
        (raw(123_456_789, 256_790_122, -1_103_703_702), raw(123_456_789, -987_654_318, 555_555_552)),
        (raw(752_790_122, -148_543_210, -842_962_963), raw(123_456_790, -987_654_320, 555_555_553)),
        (raw(-194_567_900, -987_654_321, -534_814_810), raw(123_456_788, -987_654_321, 555_555_549)),
        (raw(123_456_789, -987_654_321, -555_555_555), raw(123_456_789, -987_654_321, 555_555_555)),
    ];
    for (n, (once, twice)) in exact_unit_normals().iter().zip(expected) {
        assert_eq!(reflect(&x, n), once);
        assert_eq!(reflect(&once, n), twice);
    }
}

#[test]
fn reflecting_twice_at_a_unit_normal_is_off_by_less_than_fifty_six_billionths() {
    let steps = [-100_000_000_000_000_000i64, -3_000_000_007, -1_000_000_000, -1, 0, 7, 999_999_999, 100_000_000_000_000_000];
    for n in exact_unit_normals() {
        assert_eq!(exact_dot(&n, &n), 1_000_000_000_000_000_000);
        for a in steps {
            for b in steps {
                for c in steps {
                    let x = raw(a, b, c);
                    let twice = reflect(&reflect(&x, &n), &n);
                    for (found, given) in [(twice.x, x.x), (twice.y, x.y), (twice.z, x.z)] {
                        assert!((found.raw - given.raw).abs() < 56, "{:?} {:?}", x, n);
                    }
                }
            }
        }
    }
}

#[test]
fn reflection_at_a_unit_normal_mirrors_what_lies_along_it() {
    let steps = [-1_000_000_000_000_000_000i64, -3_000_000_007, -1, 0, 999_999_999, 1_000_000_000_000_000_000];
    for n in exact_unit_normals() {
        for a in steps {
            for b in steps {
                for c in steps {
                    let x = raw(a, b, c);
                    let r = reflect(&x, &n);
                    let sum = exact_dot(&r, &n) + exact_dot(&x, &n);
                    assert!(sum.abs() < 21_000_000_000, "{:?} {:?}", x, n);
                }
            }
        }
    }
}

#[test]
fn reflection_at_a_unit_normal_keeps_the_length_within_rounding() {
    let steps = [-100_000_000_000_000_000i64, -3_000_000_007, -1_000_000_000, -1, 0, 7, 999_999_999, 100_000_000_000_000_000];
    for n in exact_unit_normals() {
        for a in steps {
            for b in steps {
                for c in steps {
                    let x = raw(a, b, c);
                    let r = reflect(&x, &n);
                    let reach = a.abs().max(b.abs()).max(c.abs()) as i128;
                    let off = exact_dot(&r, &r) - exact_dot(&x, &x);
                    assert!(off.abs() < 84 * reach + 147, "{:?} {:?}", x, n);
                }
            }
        }
    }
}

#[test]
fn reflection_of_a_unit_vector_at_a_unit_normal_is_a_unit_vector_within_rounding() {
    let units = [
        v(600, 800, 0),
        v(0, -600, 800),
        v(360, 480, -800),
        v(280, 0, 960),
        v(0, 0, -1000),
        v(-352, 936, 0),
        v(480, -640, 600),
        v(1000, 0, 0),
    ];
    for n in exact_unit_normals() {
        for x in units {
            assert_eq!(exact_dot(&x, &x), 1_000_000_000_000_000_000);
            let length = reflect(&x, &n).length().raw;
            assert!(999_999_957 <= length && length <= 1_000_000_042, "{:?} {:?}", x, n);
        }
    }
}

#[test]
fn normalized_vector_is_a_unit_vector_within_six_billionths() {
    let vectors = [
        raw(1_000_000_000, 0, 0),
        raw(1_000_000_000, 1_000_000_000, 1_000_000_000),
        raw(-577_350_270, 577_350_270, 577_350_270),
        raw(3, -1_000_000_001, 7),
        raw(123_456_789_012, -9_876_543_210, 5_000_000_000_000),
        raw(i64::MAX, i64::MIN, i64::MAX),
        raw(-1, 1_000_000_000, 1),
    ];
    for x in vectors {
        let n = x.normalized();
        let off = exact_dot(&n, &n) - 1_000_000_000_000_000_000;
        assert!(off.abs() <= 6_000_000_000, "{:?}", x);
        assert!(n.x.raw.abs() <= 1_000_000_000);
        assert!(n.y.raw.abs() <= 1_000_000_000);
        assert!(n.z.raw.abs() <= 1_000_000_000);
    }
    assert_eq!(
        raw(1_000_000_000, 1_000_000_000, 1_000_000_000).normalized(),
        raw(577_350_269, 577_350_269, 577_350_269)
    );
}

#[test]
fn shorter_vector_need_not_come_near_a_unit_vector() {
    let n = raw(1, 1, 1).normalized();
    assert_eq!(n, raw(1_000_000_000, 1_000_000_000, 1_000_000_000));
}

#[test]
fn reflecting_twice_at_a_normalized_vector() {
    let normals = [
        raw(1_000_000_000, 1_000_000_000, 1_000_000_000).normalized(),
        raw(3, -1_000_000_001, 7).normalized(),
        raw(123_456_789_012, -9_876_543_210, 5_000_000_000_000).normalized(),
        raw(-300_000_000, 1_200_000_000, 450_000_000).normalized(),
    ];
    let steps = [-1_000_000_000i64, -707_106_781, -1, 0, 7, 333_333_333, 1_000_000_000];
    for n in normals {
        for a in steps {
            for b in steps {
                for c in steps {
                    let x = raw(a, b, c);
                    let twice = reflect(&reflect(&x, &n), &n);
                    // components within one, a normal within six billionths
                    // of a unit vector: a slack of thirty-six
                    for (found, given) in [(twice.x, x.x), (twice.y, x.y), (twice.z, x.z)] {
                        assert!((found.raw - given.raw).abs() < 56 + 2 * 36, "{:?} {:?}", x, n);
                    }
                }
            }
        }
    }
}

#[test]
fn reflection_at_a_normalized_vector_keeps_the_length_within_rounding() {
    let normals = [
        raw(1_000_000_000, 1_000_000_000, 1_000_000_000).normalized(),
        raw(3, -1_000_000_001, 7).normalized(),
        raw(123_456_789_012, -9_876_543_210, 5_000_000_000_000).normalized(),
        raw(-300_000_000, 1_200_000_000, 450_000_000).normalized(),
    ];
    let steps = [-1_000_000_000i64, -707_106_781, -1, 0, 7, 333_333_333, 1_000_000_000];
    let billion: i128 = 1_000_000_000;
    for n in normals {
        for a in steps {
            for b in steps {
                for c in steps {
                    let x = raw(a, b, c);
                    let r = reflect(&x, &n);
                    let off = exact_dot(&r, &r) - exact_dot(&x, &x);
                    // a tolerance of six billionths and a reach of one: a
                    // slack of two hundred and sixteen billionths
                    assert!(off.abs() < 294 * billion + 147 + 216 * billion, "{:?} {:?}", x, n);
                }
            }
        }
    }
}

#[test]
fn entering_glass_bends_toward_the_normal() {
    let bent = refract(&v(600, 0, -800), &v(0, 0, 1000), s(1500));
    // sin: 0.6 / 1.5 = 0.4, cos: sqrt(1 - 0.16) = 0.9165..
    assert_eq!((bent.x.raw, bent.y.raw, bent.z.raw), (399_999_999, 0, -916_515_139));
}

#[test]
fn beyond_the_critical_angle_nothing_is_refracted() {
    // leaving glass of index 1.5 at a sine of 0.8, above 1 / 1.5
    assert_eq!(refract(&v(800, 0, 600), &v(0, 0, 1000), s(1500)), Vector3::zero());
    assert_eq!(refract(&v(0, 800, 600), &v(0, 0, 1000), s(1500)), Vector3::zero());
}

#[test]
fn at_the_critical_angle_the_ray_runs_along_the_surface() {
    // leaving a medium of index 1.25 at a sine of 0.8 = 1 / 1.25: k is zero
    assert_eq!(refract(&v(800, 0, 600), &v(0, 0, 1000), s(1250)), v(1000, 0, 0));
}

#[test]
fn opaque_index_of_zero() {
    // entering: eta is one over zero, the largest scalar, and k is far below zero
    assert_eq!(refract(&v(600, 0, -800), &v(0, 0, 1000), s(0)), Vector3::zero());
    // head on, the sine is zero and so is what is taken off one
    let head_on = refract(&v(0, 0, -1000), &v(0, 0, 1000), s(0));
    assert_eq!(head_on.x, s(0));
    assert_eq!(head_on.y, s(0));
}

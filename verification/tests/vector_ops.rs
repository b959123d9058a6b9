use raytracer::scalar::Scalar;
use raytracer::vector::Vector3;

fn s(thousandths: i64) -> Scalar {
    Scalar::from_raw(thousandths * 1_000_000)
}

fn v(x: i64, y: i64, z: i64) -> Vector3 {
    Vector3::new(s(x), s(y), s(z))
}

#[test]
fn constructors() {
    assert_eq!(Vector3::zero(), v(0, 0, 0));
    assert_eq!(Vector3::one(), v(1000, 1000, 1000));
    let p = Vector3::new(s(1), s(2), s(3));
    assert_eq!((p.x, p.y, p.z), (s(1), s(2), s(3)));
}

#[test]
fn sums_and_differences() {
    assert_eq!(v(1000, 2000, 3000).add(v(500, -500, 250)), v(1500, 1500, 3250));
    assert_eq!(v(1000, 2000, 3000).sub(v(500, -500, 250)), v(500, 2500, 2750));
    assert_eq!(v(1000, -2000, 0).neg(), v(-1000, 2000, 0));
}

#[test]
fn scaling_and_componentwise_product() {
    assert_eq!(v(1000, -2000, 500).scale(s(1500)), v(1500, -3000, 750));
    assert_eq!(v(1000, 2000, 3000).mul(v(500, 500, -2000)), v(500, 1000, -6000));
}

#[test]
fn dot_product() {
    // 1*4 + 2*5 + 3*6 = 32
    assert_eq!(v(1000, 2000, 3000).dot(v(4000, 5000, 6000)), s(32_000));
    assert_eq!(v(1000, 0, 0).dot(v(0, 1000, 0)), s(0));
}

#[test]
fn cross_product() {
    assert_eq!(v(1000, 0, 0).cross(v(0, 1000, 0)), v(0, 0, 1000));
    assert_eq!(v(0, 1000, 0).cross(v(1000, 0, 0)), v(0, 0, -1000));
    // (1,2,3) x (4,5,6) = (-3, 6, -3)
    assert_eq!(v(1000, 2000, 3000).cross(v(4000, 5000, 6000)), v(-3000, 6000, -3000));
}

#[test]
fn length_is_the_rounded_down_euclidean_norm() {
    assert_eq!(v(3000, 4000, 0).length(), s(5000));
    assert_eq!(v(1000, 2000, 2000).length(), s(3000));
    assert_eq!(v(0, 0, 0).length(), s(0));
    assert_eq!(v(1000, 1000, 1000).length().raw, 1_732_050_807);
    assert_eq!(v(-3000, 0, -4000).length(), s(5000));
}

#[test]
fn length_clamps() {
    let far = Scalar::from_raw(i64::MAX);
    assert_eq!(Vector3::new(far, far, far).length().raw, i64::MAX);
    let low = Scalar::from_raw(i64::MIN);
    assert_eq!(Vector3::new(low, low, low).length().raw, i64::MAX);
}

#[test]
fn normalizing() {
    assert_eq!(v(0, 0, -5000).normalized(), v(0, 0, -1000));
    assert_eq!(v(3000, 4000, 0).normalized(), v(600, 800, 0));
    let third = v(1000, 2000, 2000).normalized();
    assert_eq!((third.x.raw, third.y.raw, third.z.raw), (333_333_333, 666_666_666, 666_666_666));
    let diagonal = v(1000, 1000, 1000).normalized();
    assert_eq!(diagonal.x.raw, 577_350_269);
    assert_eq!(diagonal.x, diagonal.y);
    assert_eq!(diagonal.y, diagonal.z);
}

#[test]
fn the_zero_vector_stays_zero_when_normalized() {
    assert_eq!(Vector3::zero().normalized(), Vector3::zero());
}

#[test]
fn normalizing_the_largest_vector() {
    let far = Scalar::from_raw(i64::MAX);
    let n = Vector3::new(far, far.neg(), far).normalized();
    assert_eq!(n.x.raw, 577_350_269);
    assert_eq!(n.y.raw, -577_350_269);
    assert_eq!(n.z.raw, 577_350_269);
}

use simcore::fixed::{clamp_i64, div_trunc, isqrt};
use simcore::rng::Lcg;
use simcore::vec3::Vec3;

#[test]
fn isqrt_exact_values() {
    assert_eq!(isqrt(0), 0);
    assert_eq!(isqrt(1), 1);
    assert_eq!(isqrt(3), 1);
    assert_eq!(isqrt(4), 2);
    assert_eq!(isqrt(99), 9);
    assert_eq!(isqrt(100), 10);
    assert_eq!(isqrt(u64::MAX), 4_294_967_295);
}

#[test]
fn division_truncates_toward_zero() {
    assert_eq!(div_trunc(7, 2), 3);
    assert_eq!(div_trunc(-7, 2), -3);
    assert_eq!(div_trunc(-1, 2), 0);
    assert_eq!(div_trunc(0, 5), 0);
}

#[test]
fn clamp_bounds() {
    assert_eq!(clamp_i64(5, 0, 10), 5);
    assert_eq!(clamp_i64(-5, 0, 10), 0);
    assert_eq!(clamp_i64(15, 0, 10), 10);
}

#[test]
fn vector_arithmetic() {
    let a = Vec3::new(1, 2, 3);
    let b = Vec3::new(10, 20, 30);
    assert_eq!(a.add(b), Vec3::new(11, 22, 33));
    assert_eq!(b.sub(a), Vec3::new(9, 18, 27));
    assert_eq!(a.scale(4), Vec3::new(4, 8, 12));
    assert_eq!(Vec3::new(-7, 7, 8).div_by(2), Vec3::new(-3, 3, 4));
}

#[test]
fn vector_distance() {
    let a = Vec3::new(0, 0, 0);
    let b = Vec3::new(3, 4, 0);
    assert_eq!(a.dist(b), 5);
    assert_eq!(a.dist_sq(b), 25);
    // Rounded down between lattice points.
    let c = Vec3::new(1, 1, 1);
    assert_eq!(a.dist(c), 1);
}

#[test]
fn magnitude_clamp_scales_down() {
    let v = Vec3::new(30_000, 40_000, 0);
    assert_eq!(v.clamp_mag(10_000), Vec3::new(6_000, 8_000, 0));
    // Already within the bound: unchanged.
    assert_eq!(v.clamp_mag(60_000), v);
}

#[test]
fn lcg_is_deterministic_and_bounded() {
    let mut a = Lcg::new(12345);
    let mut b = Lcg::new(12345);
    let expect = 12345u64
        .wrapping_mul(6364136223846793005)
        .wrapping_add(1442695040888963407);
    assert_eq!(a.next(), expect);
    assert_eq!(b.next(), expect);
    for _ in 0..100 {
        let x = a.below(97);
        assert!(x < 97);
        assert_eq!(x, b.below(97));
    }
}

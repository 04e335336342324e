use swarm::vector::{clamp_length, isqrt, magnitude, unit_of, Vec2};

#[test]
fn isqrt_is_floor_root() {
    assert_eq!(isqrt(0), 0);
    assert_eq!(isqrt(1), 1);
    assert_eq!(isqrt(15), 3);
    assert_eq!(isqrt(16), 4);
    assert_eq!(isqrt(17), 4);
    assert_eq!(isqrt(1u128 << 100), 1u128 << 50);
    assert_eq!(isqrt((1u128 << 100) - 1), (1u128 << 50) - 1);
}

#[test]
fn magnitude_of_three_four_five() {
    assert_eq!(magnitude(3000, 4000), 5000);
    assert_eq!(magnitude(-3000, -4000), 5000);
    assert_eq!(magnitude(0, 0), 0);
}

#[test]
fn unit_vector_has_scale_length() {
    assert_eq!(Vec2::new(300_000, 400_000).unit(), Vec2::new(600, 800));
    assert_eq!(Vec2::new(5, 0).unit(), Vec2::new(1000, 0));
    assert_eq!(unit_of(3600, 960), Vec2::new(966, 257));
}

#[test]
fn unit_of_zero_is_zero() {
    assert_eq!(Vec2::zero().unit(), Vec2::zero());
}

#[test]
fn unit_rounds_toward_zero_symmetrically() {
    assert_eq!(unit_of(-7, 3), Vec2::new(-919, 393));
    assert_eq!(unit_of(7, -3), Vec2::new(919, -393));
}

#[test]
fn unit_of_short_vector_keeps_direction() {
    assert_eq!(unit_of(1, 1), Vec2::new(707, 707));
    assert_eq!(unit_of(0, -1), Vec2::new(0, -1000));
}

#[test]
fn clamp_keeps_short_vectors() {
    assert_eq!(clamp_length(100, -200, 250_000), Vec2::new(100, -200));
}

#[test]
fn clamp_scales_long_vectors_along_their_direction() {
    assert_eq!(clamp_length(375_000, 0, 250_000), Vec2::new(250_000, 0));
    let r = clamp_length(187_500_000, 187_500_000, 250_000);
    assert_eq!(r, Vec2::new(176_776, 176_776));
    let (x, y) = (r.x as i128, r.y as i128);
    assert!(x * x + y * y <= 250_000 * 250_000);
}

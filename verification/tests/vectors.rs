use nbody::isqrt::isqrt_u128;
use nbody::model::Vector2;

#[test]
fn isqrt_small_values() {
    assert_eq!(isqrt_u128(0), 0);
    assert_eq!(isqrt_u128(1), 1);
    assert_eq!(isqrt_u128(2), 1);
    assert_eq!(isqrt_u128(3), 1);
    assert_eq!(isqrt_u128(4), 2);
    assert_eq!(isqrt_u128(24), 4);
    assert_eq!(isqrt_u128(25), 5);
    assert_eq!(isqrt_u128(26), 5);
}

#[test]
fn isqrt_large_values() {
    assert_eq!(isqrt_u128(10_000_000_000_000_000_000_000_000), 3_162_277_660_168);
    assert_eq!(isqrt_u128(u128::MAX), (1u128 << 64) - 1);
    let k: u128 = 123_456_789_012_345;
    assert_eq!(isqrt_u128(k * k), k);
    assert_eq!(isqrt_u128(k * k - 1), k - 1);
}

#[test]
fn vector_add_sub_scale() {
    let a = Vector2::new(3, -4);
    let b = Vector2::new(10, 7);
    assert_eq!(a.add(b), Vector2 { x: 13, y: 3 });
    assert_eq!(a.sub(b), Vector2 { x: -7, y: -11 });
    assert_eq!(a.scale(-3), Vector2 { x: -9, y: 12 });
}

#[test]
fn vector_length() {
    assert_eq!(Vector2::new(3, 4).length(), 5);
    assert_eq!(Vector2::new(-3, -4).length(), 5);
    assert_eq!(Vector2::new(0, 0).length(), 0);
    assert_eq!(Vector2::new(1, 1).length(), 1);
    assert_eq!(Vector2::new(i64::MIN, 0).length(), 9_223_372_036_854_775_808);
}

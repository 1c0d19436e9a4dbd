use imagefx::math::{clamp, isqrt, lerp, luminance, pseudo_random, smoothstep};

#[test]
fn test_clamp() {
    assert_eq!(clamp(5, 0, 10), 5);
    assert_eq!(clamp(-5, 0, 10), 0);
    assert_eq!(clamp(15, 0, 10), 10);
}

#[test]
fn test_lerp() {
    assert_eq!(lerp(0, 10, 500), 5);
    assert_eq!(lerp(0, 10, 0), 0);
    assert_eq!(lerp(0, 10, 1000), 10);
}

#[test]
fn test_luminance() {
    assert_eq!(luminance(255, 255, 255), 2550000);
    assert_eq!(luminance(0, 0, 0), 0);
}

#[test]
fn test_lerp_downward() {
    assert_eq!(lerp(10, 0, 500), 5);
    assert_eq!(lerp(100, 50, 1000), 50);
    assert_eq!(lerp(-10, 10, 250), -5);
}

#[test]
fn test_smoothstep_edges() {
    assert_eq!(smoothstep(0, 10, -5), 0);
    assert_eq!(smoothstep(0, 10, 0), 0);
    assert_eq!(smoothstep(0, 10, 10), 1000);
    assert_eq!(smoothstep(0, 10, 25), 1000);
    // halfway: t = 500, 500*500*2000/1000000 = 500
    assert_eq!(smoothstep(0, 10, 5), 500);
}

#[test]
fn test_isqrt_values() {
    assert_eq!(isqrt(0), 0);
    assert_eq!(isqrt(1), 1);
    assert_eq!(isqrt(15), 3);
    assert_eq!(isqrt(16), 4);
    assert_eq!(isqrt(2_250_000), 1500);
    assert_eq!(isqrt(u64::MAX as u128 * u64::MAX as u128), u64::MAX);
    assert_eq!(isqrt(u128::MAX), u64::MAX);
}

#[test]
fn test_pseudo_random_deterministic() {
    // seed 0: (0*1103515245 + 12345) >> 16 == 0
    assert_eq!(pseudo_random(0), 0);
    // seed 1: (1103515245 + 12345) = 1103527590; >> 16 = 16838, below 0x8000
    assert_eq!(pseudo_random(1), 16838);
    assert_eq!(pseudo_random(1), pseudo_random(1));
    assert!(pseudo_random(123456) <= 0x7fff);
}

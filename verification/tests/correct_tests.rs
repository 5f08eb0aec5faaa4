use iatodng::correct::{
    apply_white, normalize, rescale_to_u16, subtract_dual_black, Pixel,
};
use iatodng::IaError;

fn buf(nums: &[i64], den: i64) -> Vec<Pixel> {
    nums.iter().map(|&num| Pixel { num, den }).collect()
}

fn le_samples(samples: &[u16]) -> Vec<u8> {
    let mut b = Vec::new();
    for s in samples {
        b.extend_from_slice(&s.to_le_bytes());
    }
    b
}

#[test]
fn test_normalize_exact() {
    let bytes = le_samples(&[10000, 0, 65535]);
    let pixels = normalize(&bytes, 3, 1).unwrap();
    assert_eq!(pixels.len(), 3);
    assert_eq!(pixels[0], Pixel { num: 10000, den: 65535 });
    assert_eq!(pixels[1], Pixel { num: 0, den: 65535 });
    assert_eq!(pixels[2], Pixel { num: 65535, den: 65535 });
}

#[test]
fn test_normalize_size_mismatch() {
    let bytes = le_samples(&[1, 2, 3]);
    assert_eq!(normalize(&bytes, 2, 1).err(), Some(IaError::SizeMismatch));
}

#[test]
fn test_subtract_identical_refs_removes_level_once() {
    // With black0 == black1 the correction subtracts the black level
    // exactly once, and a uniform level keeps pairwise differences.
    let mut image = buf(&[30000, 20000], 65535);
    let black = buf(&[1000, 1000], 65535);
    subtract_dual_black(&mut image, &black, &black).unwrap();
    assert_eq!(image[0], Pixel { num: 29000, den: 65535 });
    assert_eq!(image[1], Pixel { num: 19000, den: 65535 });
    assert_eq!(image[0].num - image[1].num, 30000 - 20000);
}

#[test]
fn test_subtract_detrends_drift() {
    // (image - black0) - (black1 - black0)
    let mut image = buf(&[30000], 65535);
    let black0 = buf(&[1000], 65535);
    let black1 = buf(&[1500], 65535);
    subtract_dual_black(&mut image, &black0, &black1).unwrap();
    assert_eq!(image[0], Pixel { num: (30000 - 1000) - (1500 - 1000), den: 65535 });
}

#[test]
fn test_subtract_length_mismatch() {
    let mut image = buf(&[1, 2], 65535);
    let black = buf(&[1], 65535);
    assert_eq!(
        subtract_dual_black(&mut image, &black, &black).err(),
        Some(IaError::SizeMismatch)
    );
    // Nothing changed.
    assert_eq!(image[0], Pixel { num: 1, den: 65535 });
}

#[test]
fn test_apply_white_exact_division() {
    // (40000 - 1000) normalized, divided by 20000 normalized, is exactly
    // 39000/20000 = 1.95.
    let mut image = buf(&[39000], 65535);
    let white = buf(&[20000], 65535);
    apply_white(&mut image, &white).unwrap();
    let p = image[0];
    // p == 39/20 as a rational.
    assert_eq!(p.num * 20, p.den * 39);
}

#[test]
fn test_apply_white_zero_sample_guard() {
    let mut image = buf(&[1234], 65535);
    let white = buf(&[0], 65535);
    apply_white(&mut image, &white).unwrap();
    assert_eq!(image[0], Pixel { num: 0, den: 1 });
}

#[test]
fn test_rescale_endpoints_and_rounding() {
    // min -> 0, max -> 65535, interior values to the nearest integer.
    let image = buf(&[1, 3, 2], 1);
    let out = rescale_to_u16(&image);
    assert_eq!(out, vec![0, 65535, 32768]);
}

#[test]
fn test_rescale_monotonic_concrete() {
    let image = buf(&[5, 1, 4, 2, 3], 1);
    let out = rescale_to_u16(&image);
    // a < b implies rescale(a) <= rescale(b)
    assert!(out[1] <= out[3] && out[3] <= out[4] && out[4] <= out[2] && out[2] <= out[0]);
    assert_eq!(out[1], 0);
    assert_eq!(out[0], 65535);
}

#[test]
fn test_rescale_negative_minimum() {
    // The true minimum maps to 0 even when it is negative.
    let image = buf(&[-100, 100], 1);
    let out = rescale_to_u16(&image);
    assert_eq!(out, vec![0, 65535]);
}

#[test]
fn test_rescale_constant_buffer_guard() {
    // No range to stretch: the explicit guard yields zeros instead of a
    // division by zero.
    let image = buf(&[7, 7, 7], 65535);
    assert_eq!(rescale_to_u16(&image), vec![0, 0, 0]);
}

#[test]
fn test_rescale_empty_buffer() {
    let image: Vec<Pixel> = Vec::new();
    assert_eq!(rescale_to_u16(&image), Vec::<u16>::new());
}

#[test]
fn test_rescale_mixed_denominators() {
    // 1/2 < 3/4 < 1/1: exact rational comparisons drive the scale.
    let image = vec![
        Pixel { num: 1, den: 2 },
        Pixel { num: 3, den: 4 },
        Pixel { num: 1, den: 1 },
    ];
    let out = rescale_to_u16(&image);
    assert_eq!(out[0], 0);
    assert_eq!(out[2], 65535);
    // (3/4 - 1/2) / (1 - 1/2) = 1/2 of the range, rounded half up.
    assert_eq!(out[1], 32768);
}

use spikenet::fixed::{div_fp, exp_neg, mul_frac, SCALE, LN2_FP};
use spikenet::mnist::{be_u32, parse_idx_images, parse_idx_labels, take4};

fn image_header(count: u32, h: u32, w: u32) -> Vec<u8> {
    let mut d = Vec::new();
    d.extend_from_slice(&[0, 0, 8, 3]);
    d.extend_from_slice(&count.to_be_bytes());
    d.extend_from_slice(&h.to_be_bytes());
    d.extend_from_slice(&w.to_be_bytes());
    d
}

#[test]
fn be_u32_reads_big_endian() {
    assert_eq!(be_u32(&[0x12, 0x34, 0x56, 0x78]), 0x12345678);
    assert_eq!(be_u32(&[0, 0, 0, 0]), 0);
    assert_eq!(be_u32(&[0xff, 0xff, 0xff, 0xff]), u32::MAX);
}

#[test]
fn take4_picks_a_window() {
    let v = vec![9u8, 8, 7, 6, 5, 4];
    assert_eq!(take4(&v, 0), [9, 8, 7, 6]);
    assert_eq!(take4(&v, 2), [7, 6, 5, 4]);
}

#[test]
fn parse_images_splits_payload() {
    let mut d = image_header(2, 2, 2);
    d.extend_from_slice(&[1, 2, 3, 4, 5, 6, 7, 8]);
    let imgs = parse_idx_images(&d).unwrap();
    assert_eq!(imgs, vec![vec![1, 2, 3, 4], vec![5, 6, 7, 8]]);
}

#[test]
fn parse_images_keeps_short_tail() {
    let mut d = image_header(2, 2, 2);
    d.extend_from_slice(&[1, 2, 3, 4, 5, 6]);
    let imgs = parse_idx_images(&d).unwrap();
    assert_eq!(imgs, vec![vec![1, 2, 3, 4], vec![5, 6]]);
}

#[test]
fn parse_images_rejects_bad_input() {
    assert!(parse_idx_images(&vec![0u8; 15]).is_none());
    let d = image_header(1, 0, 28);
    assert!(parse_idx_images(&d).is_none());
}

#[test]
fn parse_labels_skips_header() {
    let mut d = vec![0u8, 0, 8, 1];
    d.extend_from_slice(&3u32.to_be_bytes());
    d.extend_from_slice(&[3, 1, 4]);
    assert_eq!(parse_idx_labels(&d).unwrap(), vec![3, 1, 4]);
    assert!(parse_idx_labels(&vec![0u8; 7]).is_none());
}

#[test]
fn fixed_point_primitives() {
    assert_eq!(mul_frac(SCALE, SCALE), SCALE);
    assert_eq!(mul_frac(700, SCALE / 2), 350);
    assert_eq!(mul_frac(123, 0), 0);
    assert_eq!(div_fp(SCALE, 2 * SCALE), SCALE / 2);
    assert_eq!(div_fp(0, 7), 0);
    assert_eq!(exp_neg(0), SCALE);
    // exp(-ln 2) halves exactly on the fixed-point grid.
    assert_eq!(exp_neg(LN2_FP), SCALE / 2);
    assert_eq!(exp_neg(i64::MAX), 0);
    // exp(-0.005) on the grid, by hand through the series.
    assert_eq!(exp_neg(5_000_000), 995_012_480);
    // One decay step of the membrane time constant: exp(-0.5/20) ~ 0.97531.
    let d = exp_neg(div_fp(500_000_000, 20_000_000_000));
    assert!((d - 975_309_912).abs() < 600_000, "{d}");
}

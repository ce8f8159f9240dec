//! Sharpening before the encoder.

use svtav1_encoder::tune_vmaf::blur::{box_blur_frame, hpass_row, vpass_row, VmafRing};
use svtav1_encoder::tune_vmaf::gradient::gradient_tiles;
use svtav1_encoder::tune_vmaf::mad::compute_avg_mad;
use svtav1_encoder::tune_vmaf::sharpen::{apply_unsharp_row, count_detail_le, unsharp_apply_frame};
use svtav1_encoder::tune_vmaf::{delta_clip, preprocess_frame};

#[test]
fn clips_grow_with_the_quantizer() {
    assert_eq!(delta_clip(42, false), 8);
    assert_eq!(delta_clip(43, false), 9);
    assert_eq!(delta_clip(57, false), 10);
    assert_eq!(delta_clip(58, false), 12);
    assert_eq!(delta_clip(58, true), 8);
}

#[test]
fn rows_are_blurred_by_a_binomial() {
    let mut h = [0i16; 8];
    hpass_row(&[0, 16, 0, 0], 4, &mut h);
    // 1 4 6 4 1 around the bright sample, four entries late.
    assert_eq!(&h[4..], &[64, 96, 64, 16]);
    let rows = [&[0i16, 0, 0, 0, 16, 32][..]; 5];
    let mut out = [0u8; 2];
    vpass_row(rows, &mut out, 2, 2);
    assert_eq!(out, [1, 2]);
}

#[test]
fn flat_pictures_stay_flat() {
    let luma = vec![77u8; 6 * 5];
    let mut blur = vec![0u8; 6 * 5];
    let mut ring = VmafRing::new(6);
    box_blur_frame(&luma, 6, &mut blur, 6, 5, &mut ring);
    assert_eq!(blur, luma);
    let mut picture = luma.clone();
    let r = preprocess_frame(&mut picture, 6, 6, 5, 30, 16384);
    assert_eq!(picture, luma);
    assert_eq!(r.sharpening_amount, 16384);
}

#[test]
fn detail_is_widened_within_the_clip() {
    let mut out = [0u8; 4];
    apply_unsharp_row(&[100, 100, 100, 250], &[100, 90, 60, 200], &mut out, 4, 32768, 8);
    assert_eq!(out, [100, 108, 108, 255]);
    assert_eq!(count_detail_le(&[100, 100, 100, 250], &[100, 90, 60, 200], 4, 1, 4, 12), 2);
    let mut plane = [10u8, 20, 99, 30, 40, 99];
    unsharp_apply_frame(&mut plane, &[10, 16, 30, 48], 2, 2, 3, 16384, 8);
    assert_eq!(plane, [10, 22, 99, 30, 36, 99]);
}

#[test]
fn deviations_are_averaged_over_whole_blocks() {
    let mut block = vec![10u8; 64];
    assert_eq!(compute_avg_mad(&block, 8, 8, 8), 0);
    for v in block.iter_mut().take(32) {
        *v = 30;
    }
    assert_eq!(compute_avg_mad(&block, 8, 8, 8), 10);
    assert_eq!(compute_avg_mad(&block, 7, 8, 8), 0);
}

#[test]
fn gradients_of_a_ramp() {
    // Every sample is three more than the one to its left.
    let luma: Vec<u8> = (0..5 * 4).map(|i| (3 * (i % 5)) as u8).collect();
    let tiles = gradient_tiles(&luma, 5, 4, 5);
    assert_eq!(tiles.len(), 1);
    // Six samples with a gradient of six to the side.
    assert_eq!((tiles[0].xx, tiles[0].yy, tiles[0].xy), (6 * 36, 0, 0));
    assert!(gradient_tiles(&luma, 2, 4, 5).is_empty());
}

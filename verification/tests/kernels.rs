//! Kernels for deep samples against those for eight bits.

use svtav1_encoder::qm::{quantize_b_hbd_qm, quantize_fp_hbd_qm};
use svtav1_encoder::quant::{build_quant_table_bd, quantize_b_hbd, quantize_fp_hbd};
use svtav1_encoder::temporal_filtering::blocks::{plan_saved_src_pic, YUV422, YUV444};
use svtav1_encoder::temporal_filtering::kernels::{
    apply_filtering_central, apply_filtering_central_highbd, apply_temporal_filter_planewise_medium,
    apply_temporal_filter_planewise_medium_hbd, get_final_filtered_pixels, get_final_filtered_pixels_highbd,
};
use svtav1_encoder::temporal_filtering::noise::{estimate_noise_highbd_fp16, NO_ESTIMATE};
use svtav1_encoder::temporal_filtering::strength::{
    init_tf_driver_is_low_delay, set_hme_search_params_mctf, SearchAreaMinMax,
};
use svtav1_encoder::tf_driver::ladder::TfSearchState;

#[test]
fn flat_matrices_change_nothing() {
    let t = build_quant_table_bd(100, 10);
    let scan: Vec<u16> = (0..16).collect();
    let coeff: Vec<i32> = (0..16).map(|i| (i - 5) * t.dequant[1] * 2 / 3).collect();
    let flat = [32u8; 16];
    let run = |f: &dyn Fn(&mut [i32], &mut [i32]) -> u16| {
        let (mut q, mut d) = (vec![0i32; 16], vec![0i32; 16]);
        let eob = f(&mut q, &mut d);
        (eob, q, d)
    };
    let plain = run(&|q, d| quantize_b_hbd(&coeff, &scan, &t, 0, q, d));
    assert_eq!(plain, run(&|q, d| quantize_b_hbd_qm(&coeff, &scan, &t, 0, &flat, &flat, q, d)));
    assert_eq!(plain.0, 16);
    let plain = run(&|q, d| quantize_fp_hbd(&coeff, &scan, &t, 0, q, d));
    assert_eq!(plain, run(&|q, d| quantize_fp_hbd_qm(&coeff, &scan, &t, 0, &flat, &flat, q, d)));
    // A weight that is twice as coarse halves the level.
    let mut dc = vec![0i32; 16];
    dc[0] = 10 * t.dequant[0];
    let (eob, q, d) = run(&|q, d| quantize_fp_hbd_qm(&dc, &scan, &t, 0, &flat, &flat, q, d));
    assert_eq!((eob, q[0], d[0]), (1, 10, dc[0]));
    let (eob, q, d) = run(&|q, d| quantize_fp_hbd_qm(&dc, &scan, &t, 0, &[16; 16], &[64; 16], q, d));
    assert_eq!((eob, q[0], d[0]), (1, 5, dc[0]));
}

fn wide(v: &[u8]) -> Vec<u16> {
    v.iter().map(|&s| u16::from(s)).collect()
}

fn ramp(n: usize, step: usize, base: u8) -> Vec<u8> {
    (0..n).map(|i| base + (i * step % 23) as u8).collect()
}

#[test]
fn deep_kernels_agree_with_shallow_ones_at_eight_bits() {
    let (y, u, v) = (ramp(1024, 5, 90), ramp(256, 3, 80), ramp(256, 7, 70));
    let (py, pu, pv) = (ramp(1024, 7, 92), ramp(256, 5, 81), ramp(256, 3, 72));
    let blank = || ([vec![0u32; 1024], vec![0u32; 256], vec![0u32; 256]], [vec![0u16; 1024], vec![0u16; 256], vec![0u16; 256]]);
    let (mut a8, mut c8) = blank();
    let (mut a16, mut c16) = blank();
    apply_filtering_central(true, &y, &u, &v, 32, &mut a8, &mut c8, 32, 32, 1, 1);
    apply_filtering_central_highbd(true, &wide(&y), &wide(&u), &wide(&v), 32, &mut a16, &mut c16, 32, 32, 1, 1);
    assert_eq!((&a8, &c8), (&a16, &c16));
    assert_eq!((c8[0][0], a8[0][0]), (1000, 90_000));

    let ctx = TfSearchState::default().kernel_ctx(0, 0, 100, true, [0x1_0000; 3]);
    let [ay, au, av] = &mut a8;
    let [cy, cu, cv] = &mut c8;
    apply_temporal_filter_planewise_medium(
        &ctx, &y, 32, &py, 32, &u, &v, 16, &pu, &pv, 16, 32, 32, 1, 1, ay, cy, au, cu, av, cv,
    );
    let (wy, wu, wv, qy, qu, qv) = (wide(&y), wide(&u), wide(&v), wide(&py), wide(&pu), wide(&pv));
    let [ay, au, av] = &mut a16;
    let [cy, cu, cv] = &mut c16;
    apply_temporal_filter_planewise_medium_hbd(
        &ctx, &wy, 32, &qy, 32, &wu, &wv, 16, &qu, &qv, 16, 32, 32, 1, 1, ay, cy, au, cu, av, cv, 8,
    );
    assert_eq!((&a8, &c8), (&a16, &c16));
    assert!(c8[0].iter().all(|&c| (1000..=2000).contains(&c)));
}

#[test]
fn agreement_weighs_as_much_as_the_frame() {
    let (y, u, v) = (ramp(1024, 5, 90), ramp(256, 3, 80), ramp(256, 7, 70));
    let mut a = [vec![7u32; 1100], vec![0u32; 256], vec![0u32; 256]];
    let mut c = [vec![7u16; 1100], vec![0u16; 256], vec![0u16; 256]];
    let state = TfSearchState {
        err_32x32: [0; 4],
        err_16x16: [0; 16],
        mv_32x32_x: [40; 4],
        ..TfSearchState::default()
    };
    let ctx = state.kernel_ctx(0, 0, 100, true, [0x1_0000; 3]);
    let [ay, au, av] = &mut a;
    let [cy, cu, cv] = &mut c;
    apply_temporal_filter_planewise_medium(
        &ctx, &y, 32, &y, 32, &u, &v, 16, &u, &v, 16, 32, 32, 1, 1, ay, cy, au, cu, av, cv,
    );
    assert!(c[0][..1024].iter().all(|&w| w == 1007) && c[1].iter().chain(&c[2]).all(|&w| w == 1000));
    assert_eq!((a[0][3], a[2][9]), (7 + 1000 * u32::from(y[3]), 1000 * u32::from(v[9])));
    // Nothing beyond the block changes.
    assert!(a[0][1024..].iter().all(|&s| s == 7) && c[0][1024..].iter().all(|&w| w == 7));
}

#[test]
fn the_frame_alone_is_given_back() {
    let (y, u, v) = (ramp(80 * 70, 5, 90), ramp(40 * 40, 3, 80), ramp(40 * 40, 7, 70));
    let mut a = [vec![0u32; 4096], vec![0u32; 1024], vec![0u32; 1024]];
    let mut c = [vec![0u16; 4096], vec![0u16; 1024], vec![0u16; 1024]];
    apply_filtering_central(true, &y[162..], &u[41..], &v[41..], 80, &mut a, &mut c, 64, 64, 1, 1);
    let mut planes = [y.clone(), u.clone(), v.clone()];
    get_final_filtered_pixels(true, &mut planes, &a, &c, &[80, 40, 40], 162, 41, 32, 32);
    assert_eq!(planes, [y, u, v]);
}

#[test]
fn averages_are_rounded() {
    let accum = [vec![90_500u32; 4096], vec![1499u32; 1024], vec![1500u32; 1024]];
    let count = [vec![1000u16; 4096], vec![1000u16; 1024], vec![1000u16; 1024]];
    let mut shallow = [vec![0u8; 4096], vec![0u8; 1024], vec![0u8; 1024]];
    get_final_filtered_pixels(true, &mut shallow, &accum, &count, &[64, 32, 32], 0, 0, 32, 32);
    assert_eq!((shallow[0][0], shallow[1][5], shallow[2][1023]), (91, 1, 2));
    let mut deep = [vec![0u16; 4096], vec![0u16; 1024], vec![0u16; 1024]];
    get_final_filtered_pixels_highbd(true, &mut deep, &accum, &count, &[64, 32, 32], 0, 0, 32, 32);
    assert_eq!((deep[0][4095], deep[1][0], deep[2][7]), (91, 1, 2));
    // Without chroma the other planes are left alone.
    let mut luma = [vec![0u16; 4096], vec![3u16; 1024], vec![4u16; 1024]];
    get_final_filtered_pixels_highbd(false, &mut luma, &accum, &count, &[64, 32, 32], 0, 0, 32, 32);
    assert_eq!((luma[0][0], luma[1][0], luma[2][0]), (91, 3, 4));
}

#[test]
fn noise_needs_enough_smooth_samples() {
    assert_eq!(estimate_noise_highbd_fp16(&[400; 25], 5, 5, 5, 10), NO_ESTIMATE);
    assert_eq!(estimate_noise_highbd_fp16(&[400; 4], 2, 2, 2, 10), NO_ESTIMATE);
    assert_eq!(estimate_noise_highbd_fp16(&[400; 36], 6, 6, 6, 10), 0);
    let chequered: Vec<u16> = (0..36).map(|i| 100 + (i / 6 + i % 6) % 2).collect();
    assert_eq!(estimate_noise_highbd_fp16(&chequered, 6, 6, 6, 8), 109_516);
}

#[test]
fn saved_pictures_and_search_areas() {
    let p = plan_saved_src_pic(true, 64, 32, 1, 8);
    assert!(p.copy_luma && p.copy_chroma && !p.dest_split_mode);
    assert_eq!((p.width_y, p.height_y, p.width_uv, p.height_uv, p.dest_border), (64, 32, 32, 16, 0));
    let p = plan_saved_src_pic(false, 64, 32, YUV422, 10);
    assert!(p.copy_luma && !p.copy_chroma && p.dest_split_mode);
    assert_eq!((p.width_uv, p.height_uv), (32, 32));
    assert_eq!(plan_saved_src_pic(true, 64, 32, YUV444, 8).width_uv, 64);
    let area = SearchAreaMinMax { sa_min: (8, 4), sa_max: (16, 12) };
    let at = |level| set_hme_search_params_mctf(area, level).map(|a| (a.sa_min, a.sa_max));
    assert_eq!(at(0), Some(((8, 4), (16, 12))));
    assert_eq!(at(1), Some(((16, 8), (64, 48))));
    assert_eq!(at(2), None);
    assert!(init_tf_driver_is_low_delay(true));
    assert!(!init_tf_driver_is_low_delay(false));
}

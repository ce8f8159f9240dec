//! Level maps and matrix layout.

use svtav1_encoder::qm::{
    aom_get_qmlevel, qm_slices, quantize_b_hbd_qm, quantize_fp_qm, still_get_qmlevel, QmTables, ADJUSTED_TX_SIZE, QM_OFFSET, QM_SIZE_2D,
    QM_TOTAL_SIZE,
};

use svtav1_encoder::quant::{build_quant_table, quantize_b_hbd, quantize_fp};

/// Weight tables whose first luma matrix of level 0 starts 32, 24, 14, 11.
fn tables() -> (Vec<u8>, Vec<u8>) {
    let mut wt = vec![32u8; 15 * 2 * QM_TOTAL_SIZE];
    let iwt = vec![32u8; 15 * 2 * QM_TOTAL_SIZE];
    wt[0] = 32;
    wt[1] = 24;
    wt[2] = 14;
    wt[3] = 11;
    (wt, iwt)
}

#[test]
fn offsets_reproduce_c_init_walk() {
    let mut current = 0usize;
    let mut off = [0usize; 19];
    for t in 0..19 {
        if ADJUSTED_TX_SIZE[t] == t {
            off[t] = current;
            current += QM_SIZE_2D[t];
        }
    }
    assert_eq!(current, QM_TOTAL_SIZE);
    for t in 0..19 {
        assert_eq!(QM_OFFSET[t], off[ADJUSTED_TX_SIZE[t]], "tx {t}");
    }
}

#[test]
fn qmlevel_maps() {
    assert_eq!(aom_get_qmlevel(0, 6, 10), 6);
    assert_eq!(aom_get_qmlevel(255, 6, 10), 10);
    assert_eq!(aom_get_qmlevel(128, 6, 10), 8);
    assert_eq!(still_get_qmlevel(0, 0, 15), 10);
    assert!(still_get_qmlevel(255, 0, 15) <= still_get_qmlevel(0, 0, 15));
}

#[test]
fn identity_level_has_no_matrices() {
    let (wt, iwt) = tables();
    let t = QmTables { wt: &wt, iwt: &iwt };
    assert!(qm_slices(&t, 15, false, 0).is_none());
    let (w, iw) = qm_slices(&t, 0, false, 0).unwrap();
    assert_eq!(w.len(), 16);
    assert_eq!(iw.len(), 16);
    assert_eq!(&w[..4], &[32, 24, 14, 11]);
}

/// The level curve in floating point agrees with its integer form at every
/// quantizer index.
#[test]
fn still_levels_agree_with_the_float_curve() {
    let coeffs = [
        1.10464272e-14f64,
        -9.78597634e-12,
        3.46261763e-09,
        -6.26759877e-07,
        6.10876647e-05,
        -3.04942759e-03,
        4.79930113e-02,
        9.86922373e+00,
    ];
    for q in 0..256 {
        let mut value = 0.0f64;
        let mut power = 1.0f64;
        for k in (0..8).rev() {
            value += coeffs[k] * power;
            power *= f64::from(q);
        }
        assert_eq!(still_get_qmlevel(q, 0, 15), (value.round() as i32).clamp(0, 15), "qindex {q}");
    }
    assert_eq!(still_get_qmlevel(0, 3, 5), 5);
    assert_eq!((still_get_qmlevel(300, i32::MIN, i32::MAX), still_get_qmlevel(-1, 0, 15)), (18, 10));
    assert_eq!((still_get_qmlevel(i32::MAX, 2, 15), still_get_qmlevel(i32::MIN, 2, 15)), (15, 2));
    assert_eq!((still_get_qmlevel(4096, 2, 15), still_get_qmlevel(-4096, 2, 15)), (15, 2));
    assert_eq!(still_get_qmlevel(255, 8, 15), 8);
}

/// Matrices of the chroma class follow those of luma.
#[test]
fn chroma_matrices_follow_luma() {
    let (mut wt, iwt) = tables();
    wt[QM_TOTAL_SIZE] = 7;
    wt[3 * QM_TOTAL_SIZE + 16] = 9;
    let t = QmTables { wt: &wt, iwt: &iwt };
    let (w, _) = qm_slices(&t, 0, true, 0).unwrap();
    assert_eq!(w[0], 7);
    let (w, _) = qm_slices(&t, 1, true, 1).unwrap();
    assert_eq!((w.len(), w[0]), (64, 9));
}

#[test]
fn flat_matrices_leave_quantizing_alone() {
    let t = build_quant_table(90);
    let scan: Vec<u16> = (0..64).collect();
    let coeffs: Vec<i32> = (0..64).map(|i| (i * 97 % 601 - 300) * (1 + i % 3)).collect();
    let flat = vec![32u8; 64];
    for log_scale in 0..3 {
        let (mut q0, mut d0) = (vec![0i32; 64], vec![0i32; 64]);
        let (mut q1, mut d1) = (vec![0i32; 64], vec![0i32; 64]);
        let e0 = quantize_b_hbd(&coeffs, &scan, &t, log_scale, &mut q0, &mut d0);
        let e1 = quantize_b_hbd_qm(&coeffs, &scan, &t, log_scale, &flat, &flat, &mut q1, &mut d1);
        assert_eq!((e0, &q0, &d0), (e1, &q1, &d1));
        assert!(e0 > 0);
        let e0 = quantize_fp(&coeffs, &scan, &t, log_scale, &mut q0, &mut d0);
        let e1 = quantize_fp_qm(&coeffs, &scan, &t, log_scale, &flat, &flat, &mut q1, &mut d1);
        assert_eq!((e0, &q0, &d0), (e1, &q1, &d1));
    }
}

//! Quantizer tables, kernels and rate-distortion optimized quantization.

use svtav1_encoder::coeff_costs::{
    build_coeff_cost_tables, build_coeff_cost_tables_from_fc, CoeffCostTables, CoeffFc,
};
use svtav1_encoder::eob::eob_from_qcoeff;
use svtav1_encoder::quant::{
    ac_qlookup_10, build_quant_table, build_quant_table_bd, build_quant_table_bd_sharp, dc_qlookup_10, eob_by_walk,
    quantize_b, quantize_fp, quantize_fp_hbd,
};
use svtav1_encoder::trellis::{optimize_b, OptimizeCtx};
use svtav1_encoder::rdoq::{
    derive_inter_coeff_level, derive_intra_coeff_level, plane_rd_mult, quantize_inv_quantize_still, rdoq_cutoffs,
    rdoq_level_allintra, rdoq_rdmult, rdoq_rdmult_full, CodingQuantCfg, CoeffLvl, NoiseRequest, NormalizedTxb,
};
use svtav1_encoder::qm::QmTables;

/// `rows` uniform distributions of `n` symbols.
fn uniform(rows: usize, n: usize) -> Vec<Vec<u16>> {
    let row: Vec<u16> = (1..=n).map(|i| (32768 - 32768 * i / n) as u16).collect();
    vec![row; rows]
}

fn distributions() -> CoeffFc {
    CoeffFc {
        txb_skip_cdf: uniform(65, 2),
        coeff_base_eob_cdf: uniform(40, 3),
        coeff_base_cdf: uniform(420, 4),
        eob_extra_cdf: uniform(90, 2),
        dc_sign_cdf: uniform(6, 2),
        coeff_br_cdf: uniform(168, 4),
        eob_flag_cdf16: uniform(4, 5),
        eob_flag_cdf32: uniform(4, 6),
        eob_flag_cdf64: uniform(4, 7),
        eob_flag_cdf128: uniform(4, 8),
        eob_flag_cdf256: uniform(4, 9),
        eob_flag_cdf512: uniform(4, 10),
        eob_flag_cdf1024: uniform(4, 11),
    }
}

fn costs() -> CoeffCostTables {
    build_coeff_cost_tables_from_fc(&distributions())
}

/// Width and height of each transform size.
const SIDES: [(usize, usize); 19] = [
    (4, 4),
    (8, 8),
    (16, 16),
    (32, 32),
    (32, 32),
    (4, 8),
    (8, 4),
    (8, 16),
    (16, 8),
    (16, 32),
    (32, 16),
    (32, 32),
    (32, 32),
    (4, 16),
    (16, 4),
    (8, 32),
    (32, 8),
    (16, 32),
    (32, 16),
];

/// A scan of each class of a block: along the diagonals, the rows or the
/// columns.
fn scan_of(size: usize, class: usize) -> Vec<u16> {
    let (w, h) = SIDES[size];
    let mut at: Vec<(usize, usize)> = (0..w * h).map(|i| (i / w, i % w)).collect();
    match class {
        0 => at.sort_by_key(|&(r, c)| (r + c, if (r + c) % 2 == 0 { r } else { c })),
        1 => {}
        _ => at.sort_by_key(|&(r, c)| (c, r)),
    }
    at.iter().map(|&(r, c)| (r * w + c) as u16).collect()
}

fn inverse_of(scan: &[u16]) -> Vec<u16> {
    let mut inverse = vec![0u16; scan.len()];
    for (i, &p) in scan.iter().enumerate() {
        inverse[p as usize] = i as u16;
    }
    inverse
}

#[test]
fn eob_from_iscan_matches_reverse_walk_for_every_scan() {
    let mut cases: Vec<(Vec<u16>, Vec<i32>)> = Vec::new();
    let mut st = 0x2545_F491_4F6C_DD1D_u64;
    for ts in 0..19 {
        for class in 0..3 {
            let scan = scan_of(ts, class);
            let n = scan.len();
            cases.push((scan.clone(), vec![0; n]));
            for &pos in &[0, 1, n / 2, n - 1] {
                let mut q = vec![0; n];
                q[pos] = -3;
                cases.push((scan.clone(), q));
            }
            for density in [1u64, 8, 64] {
                let q = (0..n)
                    .map(|_| {
                        st ^= st << 13;
                        st ^= st >> 7;
                        st ^= st << 17;
                        if st % 256 < density { (st >> 20) as i32 % 9 - 4 } else { 0 }
                    })
                    .collect();
                cases.push((scan.clone(), q));
            }
        }
    }
    for (scan, q) in &cases {
        let inverse = inverse_of(scan);
        assert_eq!(eob_from_qcoeff(scan, Some(&inverse), q), eob_by_walk(scan, q), "n={}", scan.len());
        assert_eq!(eob_from_qcoeff(scan, None, q), eob_by_walk(scan, q), "n={}", scan.len());
    }
}

#[test]
fn default_distributions_come_from_the_quantizer() {
    let tables = build_coeff_cost_tables(77, &|q| {
        assert_eq!(q, 77);
        distributions()
    });
    assert_eq!(tables.txb[3].base_cost, costs().txb[3].base_cost);
    assert_eq!(tables.eob[5].eob_cost, costs().eob[5].eob_cost);
}

/// Diagonal scan of a square block.
fn diagonal_scan(side: usize) -> Vec<u16> {
    let mut scan = Vec::new();
    for d in 0..2 * side - 1 {
        for r in 0..side {
            if d >= r && d - r < side {
                scan.push((r * side + (d - r)) as u16);
            }
        }
    }
    scan
}

#[test]
fn the_inter_thresholds_are_cs_truncated_ones() {
    assert_eq!((5833 / 96, 5833 / 48, 16666 / 48), (60, 121, 347));
    let (w, h) = (64usize, 64usize);
    let at = |d: u64| derive_inter_coeff_level(d, 1, w, h);
    assert_eq!(at(101), CoeffLvl::VLow);
    assert_eq!(at(102), CoeffLvl::Low);
    assert_eq!(at(204), CoeffLvl::Low);
    assert_eq!(at(205), CoeffLvl::Normal);
    assert_eq!(at(589), CoeffLvl::Normal);
    assert_eq!(at(590), CoeffLvl::High);
    assert_eq!(at(0), CoeffLvl::VLow);
    assert_eq!(derive_inter_coeff_level(1000, 0, w, h), CoeffLvl::High);
    assert_eq!(derive_inter_coeff_level(1000, 5, w, h), CoeffLvl::Low);
}

#[test]
fn build_quant_table_bd8_matches_legacy() {
    for q in 0u8..=255 {
        assert_eq!(build_quant_table_bd(q, 8), build_quant_table(q), "qindex {q}");
    }
}

#[test]
fn build_quant_table_bd10_dequant_matches_tables() {
    for &q in &[0u8, 1, 20, 40, 55, 128, 200, 255] {
        let t = build_quant_table_bd(q, 10);
        assert_eq!(t.dequant[0], dc_qlookup_10(q), "dc q={q}");
        assert_eq!(t.dequant[1], ac_qlookup_10(q), "ac q={q}");
    }
}

#[test]
fn quantize_fp_hbd_matches_fp_below_int16_diverges_above() {
    let t = build_quant_table_bd(160, 10);
    let scan: Vec<u16> = (0..16u16).collect();
    let small: Vec<i32> = vec![1000, -2000, 300, 0, 500, -100, 42, 7, 0, 0, 0, 0, 0, 0, 0, 0];
    let (mut qa, mut da) = (vec![0i32; 16], vec![0i32; 16]);
    let (mut qb, mut db) = (vec![0i32; 16], vec![0i32; 16]);
    let ea = quantize_fp(&small, &scan, &t, 1, &mut qa, &mut da);
    let eb = quantize_fp_hbd(&small, &scan, &t, 1, &mut qb, &mut db);
    assert_eq!((ea, &qa, &da), (eb, &qb, &db), "equal below 16 bits");
    let big: Vec<i32> = vec![90000, 0, 0, 0, 0, 0, 0, 0, 0, 0, 0, 0, 0, 0, 0, 0];
    let (mut qc, mut dc) = (vec![0i32; 16], vec![0i32; 16]);
    let (mut qd, mut dd) = (vec![0i32; 16], vec![0i32; 16]);
    quantize_fp(&big, &scan, &t, 1, &mut qc, &mut dc);
    quantize_fp_hbd(&big, &scan, &t, 1, &mut qd, &mut dd);
    assert!(qd[0].abs() > qc[0].abs(), "level {} must exceed the clamped level {}", qd[0], qc[0]);
}

#[test]
fn quant_table_matches_c_qindex220() {
    let t = build_quant_table(220);
    assert_eq!(t.zbin, [326, 583]);
    assert_eq!(t.round, [195, 349]);
    assert_eq!(t.quant, [-1255, -29571]);
    assert_eq!(t.quant_shift, [128, 128]);
    assert_eq!(t.quant_fp, [125, 70]);
    assert_eq!(t.round_fp, [261, 466]);
    assert_eq!(t.dequant, [522, 933]);
}

#[test]
fn rdmult_matches_c() {
    assert_eq!(rdoq_rdmult(248207, 0), 1054880);
    assert_eq!(rdoq_rdmult(1527856, 0), 6493388);
    assert_eq!(rdoq_rdmult(25650, 0), 109013);
}

#[test]
fn plane_rd_mult_matches_c() {
    assert_eq!(plane_rd_mult(false, false, 0), 17);
    assert_eq!(plane_rd_mult(false, false, 1), 20);
    assert_eq!(plane_rd_mult(false, true, 0), 16);
    assert_eq!(plane_rd_mult(false, true, 1), 20);
    assert_eq!(plane_rd_mult(true, false, 0), 17);
    assert_eq!(plane_rd_mult(true, false, 1), 13);
    assert_eq!(plane_rd_mult(true, true, 0), 16);
    assert_eq!(plane_rd_mult(true, true, 1), 10);
    assert_eq!(rdoq_rdmult_full(248207, 1, 0, false, false, true, false), 806673);
    assert_eq!(rdoq_rdmult_full(248207, 1, 0, false, false, false, false), 1241035);
    assert_eq!(rdoq_rdmult_full(248207, 0, 0, false, false, false, true), 992828);
    assert_eq!(rdoq_rdmult_full(248207, 0, 0, false, false, false, false), 1054880);
    assert_eq!(
        rdoq_rdmult_full(248207, 1, 0, false, false, false, true),
        rdoq_rdmult_full(248207, 1, 0, false, false, false, false)
    );
    assert_eq!(
        rdoq_rdmult_full(248207, 0, 0, false, false, true, false),
        rdoq_rdmult_full(248207, 0, 0, false, false, false, false)
    );
}

#[test]
fn coeff_lvl_matches_c() {
    assert_eq!(derive_intra_coeff_level(5425, 20, 64, 64), CoeffLvl::High);
    assert_eq!(derive_intra_coeff_level(5425, 40, 64, 64), CoeffLvl::Normal);
    assert_eq!(derive_intra_coeff_level(5425, 55, 64, 64), CoeffLvl::Normal);
    assert_eq!(derive_intra_coeff_level(1483, 20, 128, 128), CoeffLvl::Low);
    assert_eq!(derive_intra_coeff_level(255, 1, 64, 64), CoeffLvl::Normal);
    assert_eq!(derive_intra_coeff_level(256, 1, 64, 64), CoeffLvl::High);
}

#[test]
fn rdoq_policy_matches_c() {
    assert_eq!(rdoq_level_allintra(9, CoeffLvl::High), 0);
    assert_eq!(rdoq_level_allintra(9, CoeffLvl::Normal), 3);
    assert_eq!(rdoq_level_allintra(9, CoeffLvl::Low), 2);
    assert_eq!(rdoq_level_allintra(9, CoeffLvl::VLow), 2);
    assert_eq!(rdoq_level_allintra(5, CoeffLvl::High), 1);
    assert_eq!(rdoq_cutoffs(2), (80, 100));
    assert_eq!(rdoq_cutoffs(3), (60, 100));
}

#[test]
fn optimize_keeps_dequant_mirror() {
    let n = 256usize;
    let mut tcoeffs = vec![0i32; n];
    let mut s = 0x1234_5678u32;
    for (i, c) in tcoeffs.iter_mut().enumerate() {
        s = s.wrapping_mul(1103515245).wrapping_add(12345);
        let mag = (s >> 20) as i32 % 900;
        *c = if s & 1 == 0 { mag } else { -mag } / (1 + i as i32 / 16);
    }
    let scan = diagonal_scan(16);
    let cfg = CodingQuantCfg::new(3, 248207, costs());
    let mut q = vec![0i32; n];
    let mut dq = vec![0i32; n];
    let none = QmTables { wt: &[], iwt: &[] };
    let eob =
        quantize_inv_quantize_still(&cfg, &tcoeffs, &mut q, &mut dq, &scan, 160, 2, 0, 0, false, 15, &none, &untouched);
    let t = build_quant_table(160);
    let log_scale = 0u32;
    for i in 0..n {
        let expect =
            ((q[i].unsigned_abs() as i64 * t.dequant[usize::from(i != 0)] as i64) >> log_scale) as i32;
        assert_eq!(dq[i].abs(), expect, "dq mirror at {i}");
        assert_eq!(dq[i] < 0, q[i] < 0 && q[i] != 0, "sign at {i}");
    }
    if eob > 0 {
        assert_ne!(q[scan[eob as usize - 1] as usize], 0, "eob-1 must be nonzero");
    }
}

/// Noise that is not to be normalized.
fn untouched(_: NoiseRequest) -> NormalizedTxb {
    panic!("noise is normalized")
}

/// Noise is normalized on luma blocks of the encode pass that hold a level and
/// are transformed, and what comes back is kept.
#[test]
fn noise_is_normalized_where_it_is_asked_for() {
    let mut tcoeffs = vec![0i32; 16];
    tcoeffs[0] = 4000;
    tcoeffs[5] = -2000;
    let scan = diagonal_scan(4);
    let none = QmTables { wt: &[], iwt: &[] };
    let cfg = CodingQuantCfg { hdr_fork: true, noise_norm_strength: 3, ..CodingQuantCfg::new(0, 248207, costs()) };
    let t = build_quant_table(160);
    let normalize = |r: NoiseRequest| {
        assert_eq!((r.dequant, r.tx_size, r.strength, r.iwt.is_none()), (t.dequant, 0, 3, true));
        assert_eq!((r.tcoeffs[5], r.scan.len(), r.qcoeff.len()), (-2000, 16, 16));
        assert_eq!(r.dqcoeff[5], r.qcoeff[5] * t.dequant[1]);
        let (mut qcoeff, mut dqcoeff) = (r.qcoeff, r.dqcoeff);
        qcoeff[15] = 1;
        dqcoeff[15] = t.dequant[1];
        NormalizedTxb { qcoeff, dqcoeff, eob: r.eob + 3 }
    };
    let (mut q, mut dq) = (vec![0i32; 16], vec![0i32; 16]);
    let plain = {
        let cfg = CodingQuantCfg::new(0, 248207, costs());
        quantize_inv_quantize_still(&cfg, &tcoeffs, &mut q, &mut dq, &scan, 160, 0, 0, 0, false, 15, &none, &untouched)
    };
    let level = q[5];
    let eob =
        quantize_inv_quantize_still(&cfg, &tcoeffs, &mut q, &mut dq, &scan, 160, 0, 0, 0, false, 15, &none, &normalize);
    assert_eq!((eob, q[5], q[15], dq[15]), (plain + 3, level, 1, t.dequant[1]));
    // Chroma, identity transforms, blocks without a level and other passes
    // are left alone.
    let off = CodingQuantCfg::new(0, 248207, costs());
    let search = CodingQuantCfg { hdr_fork: true, noise_norm_strength: 3, is_encode_pass: false, ..off };
    let zeros = vec![0i32; 16];
    let mut run = |cfg: &CodingQuantCfg, coeffs: &[i32], plane: usize, idtx: bool| {
        quantize_inv_quantize_still(cfg, coeffs, &mut q, &mut dq, &scan, 160, 0, 0, plane, idtx, 15, &none, &untouched)
    };
    assert_eq!(run(&search, &tcoeffs, 0, false), plain);
    assert_eq!(run(&cfg, &tcoeffs, 1, false), plain);
    assert_eq!(run(&cfg, &tcoeffs, 0, true), plain);
    assert_eq!(run(&cfg, &zeros, 0, false), 0);
}

/// The dead-zone quantizer on hand-computed values.
#[test]
fn dead_zone_drops_small_coefficients() {
    let t = build_quant_table(220);
    let scan: Vec<u16> = (0..16u16).collect();
    let mut coeffs = vec![0i32; 16];
    coeffs[0] = 325;
    coeffs[1] = -933;
    coeffs[2] = 100;
    let (mut q, mut dq) = (vec![0i32; 16], vec![0i32; 16]);
    let eob = quantize_b(&coeffs, &scan, &t, 0, &mut q, &mut dq);
    assert_eq!(eob, 2);
    assert_eq!((q[0], q[1], q[2]), (0, -1, 0));
    assert_eq!((dq[0], dq[1], dq[2]), (0, -933, 0));
}

/// Sharpness narrows the dead zone and leaves the reconstruction alone.
#[test]
fn sharpness_only_touches_dead_zone_and_rounding() {
    let plain = build_quant_table_bd_sharp(120, 8, 0);
    let sharp = build_quant_table_bd_sharp(120, 8, 7);
    assert_eq!(plain.quant, sharp.quant);
    assert_eq!(plain.quant_shift, sharp.quant_shift);
    assert_eq!(plain.quant_fp, sharp.quant_fp);
    assert_eq!(plain.round_fp, sharp.round_fp);
    assert_eq!(plain.dequant, sharp.dequant);
}

#[test]
fn end_of_block_is_one_past_the_last_level() {
    let scan = diagonal_scan(4);
    let mut q = vec![0i32; 16];
    assert_eq!(eob_by_walk(&scan, &q), 0);
    q[scan[5] as usize] = -2;
    assert_eq!(eob_by_walk(&scan, &q), 6);
    q[scan[15] as usize] = 1;
    assert_eq!(eob_by_walk(&scan, &q), 16);
}

#[test]
fn optimizing_lowers_each_level_at_most_once() {
    let n = 256usize;
    let scan = diagonal_scan(16);
    let t = build_quant_table(120);
    let tables = costs();
    let tcoeffs: Vec<i32> = (0..n as i32).map(|i| (i * 61 % 1201 - 600) / (1 + i / 8)).collect();
    for sharpness_flag in [false, true] {
        let (mut q, mut dq) = (vec![0i32; n], vec![0i32; n]);
        let mut eob = quantize_fp(&tcoeffs, &scan, &t, 0, &mut q, &mut dq);
        let (q0, eob0) = (q.clone(), eob);
        assert!(eob0 > 0);
        let ctx = OptimizeCtx {
            txb_costs: &tables.txb[4],
            eob_costs: &tables.eob[8],
            rdmult: 2_000_000,
            tx_size: 2,
            tx_class: 0,
            txb_skip_ctx: 0,
            dc_sign_ctx: 0,
            sharpness_flag,
            iwt: None,
            cut_off_num: 0,
            cut_off_denum: 1,
        };
        optimize_b(&tcoeffs, &mut q, &mut dq, &mut eob, &scan, &t, &ctx);
        for i in 0..n {
            let lower = q0[i] - q0[i].signum();
            assert!(q[i] == q0[i] || q[i] == lower || q[i] == 0, "level {i}");
        }
        assert_eq!(eob, eob_by_walk(&scan, &q));
        assert!(q != q0);
        if sharpness_flag {
            assert_eq!(eob, eob0);
        }
    }
}

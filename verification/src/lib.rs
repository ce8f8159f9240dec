//! Decision logic of a block-based video encoder: rate-distortion costs,
//! coefficient quantization, temporal filtering, reference management and the
//! coding-resolution choices, each with a machine-checked contract.

pub mod arith;
pub mod coeff_ctx;
pub mod coeff_laws;
pub mod quant_tables;
pub mod eob;
pub mod quant;
pub mod qm;
pub mod qm_laws;
pub mod trellis;
pub mod trellis_costs;
pub mod trellis_laws;
pub mod coeff_costs;
pub mod rdoq;
pub mod rdoq_laws;
pub mod pixel;
pub mod raster;
pub mod slots;
pub mod tune_vmaf;
pub mod types;
pub mod picstruct;
pub mod rd_cost;
pub mod quant_laws;
pub mod rate_arm;
pub mod ref_mgmt;
pub mod sframe;
pub mod sgr_search;
pub mod src_ops;
pub mod superres;
pub mod temporal_filtering;
pub mod tf_driver;
pub mod tpl;

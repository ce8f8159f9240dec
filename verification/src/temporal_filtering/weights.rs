//! Fixed-point functions the filter weights are made of.

use vstd::arithmetic::power2::{lemma2_to64, lemma_pow2_pos, lemma_pow2_unfold, pow2};
use vstd::prelude::*;

use crate::arith::{div_trunc, low_i32, low_u32_of_i64, shr_i32, shr_i64, shr_int, shr_u32, wrap_i32};

verus! {

/// Block errors below this count as low, in units of `2^12`.
pub const LOW_ERROR_THRESHOLD: u64 = 200;

/// Block errors below this count as medium, in units of `2^12`.
pub const MED_ERROR_THRESHOLD: u64 = 2000;

/// `ln(x)` for `x` in steps of 1/32 from 0 to 7, with 16 fraction bits.
pub const LOG1P_TAB_FP16: [i32; 225] = [
    -2147483648, -227130, -181704, -155131, -136278, -121654, -109705, -99603, -90852, -83133, -76228, -69982,
    -64279, -59033, -54177, -49655, -45426, -41452, -37707, -34163, -30802, -27604, -24555, -21642,
    -18853, -16178, -13607, -11134, -8751, -6451, -4229, -2080, 0, 2016, 3973, 5872,
    7719, 9514, 11262, 12964, 14623, 16242, 17821, 19363, 20870, 22342, 23783, 25192,
    26572, 27923, 29247, 30545, 31818, 33066, 34291, 35494, 36674, 37834, 38974, 40095,
    41196, 42279, 43345, 44394, 45426, 46442, 47442, 48428, 49399, 50355, 51298, 52228,
    53145, 54049, 54940, 55820, 56688, 57545, 58390, 59225, 60050, 60864, 61668, 62462,
    63247, 64023, 64789, 65547, 66296, 67036, 67769, 68493, 69209, 69917, 70618, 71312,
    71998, 72677, 73349, 74015, 74673, 75326, 75971, 76611, 77244, 77871, 78492, 79108,
    79717, 80321, 80920, 81513, 82101, 82683, 83261, 83833, 84400, 84963, 85521, 86074,
    86622, 87166, 87705, 88240, 88771, 89297, 89820, 90338, 90852, 91362, 91868, 92370,
    92868, 93363, 93854, 94341, 94825, 95305, 95782, 96255, 96725, 97191, 97654, 98114,
    98571, 99024, 99475, 99922, 100366, 100808, 101246, 101681, 102114, 102544, 102971, 103395,
    103816, 104235, 104651, 105065, 105476, 105884, 106290, 106693, 107094, 107492, 107888, 108282,
    108673, 109062, 109449, 109833, 110215, 110595, 110973, 111348, 111722, 112093, 112462, 112830,
    113195, 113558, 113919, 114278, 114635, 114990, 115344, 115695, 116044, 116392, 116738, 117082,
    117424, 117765, 118103, 118440, 118776, 119109, 119441, 119771, 120100, 120426, 120752, 121075,
    121397, 121718, 122037, 122354, 122670, 122984, 123297, 123608, 123918, 124227, 124534, 124839,
    125143, 125446, 125747, 126047, 126346, 126643, 126939, 127233, 127527,
];

/// `exp(-x / 16)` for `x` from 0 on, with 16 fraction bits.
pub const EXPF_TAB_FP16: [i32; 129] = [
    65536, 61565, 57835, 54331, 51039, 47947, 45042, 42313, 39749, 37341, 35078, 32953,
    30957, 29081, 27319, 25664, 24109, 22648, 21276, 19987, 18776, 17638, 16570, 15566,
    14623, 13737, 12904, 12122, 11388, 10698, 10050, 9441, 8869, 8331, 7827, 7352,
    6907, 6488, 6095, 5726, 5379, 5053, 4747, 4459, 4189, 3935, 3697, 3473,
    3262, 3065, 2879, 2704, 2541, 2387, 2242, 2106, 1979, 1859, 1746, 1640,
    1541, 1447, 1360, 1277, 1200, 1127, 1059, 995, 934, 878, 824, 774,
    728, 683, 642, 603, 566, 532, 500, 470, 441, 414, 389, 366,
    343, 323, 303, 285, 267, 251, 236, 222, 208, 195, 184, 172,
    162, 152, 143, 134, 126, 118, 111, 104, 98, 92, 86, 81,
    76, 72, 67, 63, 59, 56, 52, 49, 46, 43, 41, 38,
    36, 34, 31, 30, 28, 26, 24, 23, 21,
];

/// `sqrt(x)` for `x` below 16, with 16 fraction bits.
pub const SQRT_ARRAY_FP16: [u32; 16] = [
    0, 65536, 92681, 113511, 131072, 146542, 160529, 173391, 185363, 196608, 207243, 217358,
    227023, 236293, 245213, 253819,
];

/// `ln(1 + x)` with 16 fraction bits: the smallest value there is for
/// `x <= -1`, interpolated between table entries below 6, and along a line
/// above. Every step wraps at 32 bits, as does the argument.
pub open spec fn log1p_spec(x: int) -> int {
    let base = wrap_i32(0x1_0000 + x);
    if base <= 0 {
        i32::MIN as int
    } else if base < 458752 {
        let lo = LOG1P_TAB_FP16[base / 2048] as int;
        let hi = LOG1P_TAB_FP16[base / 2048 + 1] as int;
        wrap_i32(lo + wrap_i32((base % 2048) * wrap_i32(hi - lo)) / 2048)
    } else {
        wrap_i32(wrap_i32(1860 * (x / 256)) / 256 + 116456)
    }
}

/// `ln(1 + x)` of a noise level, with 16 fraction bits.
pub fn noise_log1p_fp16(noise_level_fp16: i32) -> (r: i32)
    ensures
        r == log1p_spec(noise_level_fp16 as int),
{
    proof {
        lemma2_to64();
    }
    let base: i32 = low_i32(0x1_0000 + noise_level_fp16 as i64);
    if base <= 0 {
        i32::MIN
    } else if base < 458752 {
        let id: usize = (base / 2048) as usize;
        let rest: i32 = base % 2048;
        let lo: i32 = LOG1P_TAB_FP16[id];
        let hi: i32 = LOG1P_TAB_FP16[id + 1];
        let gap: i32 = low_i32(hi as i64 - lo as i64);
        assert(-0x400_0000_0000 <= rest * gap <= 0x400_0000_0000) by (nonlinear_arith)
            requires
                0 <= rest < 2048,
                -0x8000_0000 <= gap <= 0x7fff_ffff,
        ;
        let diff: i32 = shr_i32(low_i32(rest as i64 * gap as i64), 11);
        low_i32(lo as i64 + diff as i64)
    } else {
        let slope: i32 = low_i32(1860 * shr_i32(noise_level_fp16, 8) as i64);
        low_i32(shr_i32(slope, 8) as i64 + 116456)
    }
}

/// Inside the table, but for its first step, interpolation stays between the
/// entries on either side: nothing wraps.
pub proof fn log1p_stays_between_entries(x: int)
    requires
        2048 - 0x1_0000 <= x < 458752 - 0x1_0000,
    ensures
        LOG1P_TAB_FP16[(0x1_0000 + x) / 2048] <= log1p_spec(x) <= LOG1P_TAB_FP16[(0x1_0000 + x) / 2048 + 1],
{
    let base = 0x1_0000 + x;
    let id = base / 2048;
    let lo = LOG1P_TAB_FP16[id] as int;
    let hi = LOG1P_TAB_FP16[id + 1] as int;
    lemma_table_steps(id);
    let rest = base % 2048;
    let gap = hi - lo;
    assert(0 <= rest * gap <= 2048 * gap) by (nonlinear_arith)
        requires
            0 <= rest < 2048,
            0 <= gap,
    ;
}

proof fn lemma_table_steps(id: int)
    requires
        1 <= id < 224,
    ensures
        0 < LOG1P_TAB_FP16[id + 1] - LOG1P_TAB_FP16[id] <= 50_000,
        -300_000 <= LOG1P_TAB_FP16[id] <= 130_000,
{
}

/// How often `x` can be divided by four before it falls below 16.
pub open spec fn quarterings(x: int) -> nat
    decreases x,
{
    if x < 16 {
        0
    } else {
        1 + quarterings(x / 4)
    }
}

/// `x` divided by four until it falls below 16.
pub open spec fn quartered(x: int) -> int
    decreases x,
{
    if x < 16 {
        x
    } else {
        quartered(x / 4)
    }
}

/// An approximate square root: the table entry of the leading digits, scaled
/// by the digits that were dropped.
pub open spec fn sqrt_spec(x: int) -> int {
    SQRT_ARRAY_FP16[quartered(x)] as int / (pow2((16 - quarterings(x)) as nat) as int)
}

/// Approximate square root.
pub fn sqrt_fast(x: u32) -> (r: u32)
    ensures
        r == sqrt_spec(x as int),
        r < 0x1_0000,
{
    let mut base: u32 = x;
    let mut k: u32 = 0;
    let ghost mut room: int = 0x1_0000_0000;
    proof {
        lemma2_to64();
    }
    while base >= 16
        invariant
            quartered(base as int) == quartered(x as int),
            quarterings(base as int) + k == quarterings(x as int),
            base < room,
            room == pow2((32 - 2 * k) as nat),
            k <= 14,
        decreases base,
    {
        proof {
            lemma2_to64();
            assert(k < 14) by {
                if k == 14 {
                    assert(room == 16);
                }
            }
            lemma_pow2_unfold((32 - 2 * k) as nat);
            lemma_pow2_unfold((31 - 2 * k) as nat);
            room = room / 4;
        }
        base = base / 4;
        k = k + 1;
    }
    assert(base < 16);
    assert(SQRT_ARRAY_FP16[base as int] <= 253819);
    let r: u32 = shr_u32(SQRT_ARRAY_FP16[base as usize], 16 - k);
    proof {
        lemma2_to64();
        let p = pow2((16 - k) as nat) as int;
        assert(p >= 4) by {
            vstd::arithmetic::power2::lemma_pow2_strictly_increases(1, (16 - k) as nat);
            lemma_pow2_unfold((16 - k) as nat);
            lemma_pow2_pos((15 - k) as nat);
            if 15 - k > 1 {
                vstd::arithmetic::power2::lemma_pow2_strictly_increases(1, (15 - k) as nat);
            }
        }
        vstd::arithmetic::div_mod::lemma_div_is_ordered(SQRT_ARRAY_FP16[base as int] as int, 253819, p);
        vstd::arithmetic::div_mod::lemma_div_is_ordered_by_denominator(253819, 4, p);
    }
    r
}

/// Weight shift of a block error: the smaller the error, the larger.
pub open spec fn shift_of_error(error: int) -> int {
    let e = error / 4096;
    if e < 200 {
        14
    } else if e < 2000 {
        13
    } else {
        12
    }
}

/// Weight shift of the error of a 64x64 block.
pub fn calculate_tf_shift_factor(tf_64x64_block_error: u64) -> (r: u8)
    ensures
        r == shift_of_error(tf_64x64_block_error as int),
        12 <= r <= 14,
{
    let block_err: u64 = tf_64x64_block_error / 4096;
    if block_err < LOW_ERROR_THRESHOLD {
        14
    } else if block_err < MED_ERROR_THRESHOLD {
        13
    } else {
        12
    }
}

/// Decay factor of a plane: the low 32 bits of `n^2 q / 2^shift`.
pub open spec fn decay_of(n: int, q: int, shift: nat) -> int {
    shr_int((n * n) * q, shift) % 0x1_0000_0000
}

/// The product a decay factor is made of fits 64 bits.
pub open spec fn decay_fits(n: int, q: int) -> bool {
    n * n <= i64::MAX && (n * n) * q <= i64::MAX
}

/// Decay level of a chroma plane.
pub open spec fn chroma_level(control: int, base: int, noise: int) -> int {
    div_trunc(control * (base + noise), 64)
}

/// A chroma decay level is computed without overflow.
pub open spec fn chroma_level_fits(control: int, base: int, noise: int) -> bool {
    i32::MIN <= base + noise <= i32::MAX && i32::MIN <= control * (base + noise) <= i32::MAX
}

fn decay(n: i32, q: u32, shift: u8) -> (r: u32)
    requires
        shift < 64,
        decay_fits(n as int, q as int),
    ensures
        r == decay_of(n as int, q as int, shift as nat),
{
    proof {
        assert(n * n >= 0) by (nonlinear_arith);
        assert((n * n) * q >= 0) by (nonlinear_arith)
            requires
                n * n >= 0,
                q >= 0,
        ;
    }
    low_u32_of_i64(shr_i64((n as i64 * n as i64) * q as i64, shift as u32))
}

/// Decay factors of the planes. The luma factor uses the level that is handed
/// in; the chroma factors use levels of their own, the last of which is handed
/// back.
pub fn calculate_decay_factor(
    tf_decay_factor_fp16: &mut [u32; 3],
    n_decay_fp10: &mut i32,
    q_decay_fp8: u32,
    decay_control_cu: i32,
    decay_control_cv: i32,
    const_0dot7_fp16: i32,
    noise_levels_log1p_fp16: &[i32; 3],
    shift_factor: u8,
    tf_chroma: bool,
)
    requires
        shift_factor < 64,
        decay_fits(*old(n_decay_fp10) as int, q_decay_fp8 as int),
        tf_chroma ==> {
            let base = const_0dot7_fp16 as int;
            let nu = noise_levels_log1p_fp16[1] as int;
            let nv = noise_levels_log1p_fp16[2] as int;
            &&& chroma_level_fits(decay_control_cu as int, base, nu)
            &&& chroma_level_fits(decay_control_cv as int, base, nv)
            &&& decay_fits(chroma_level(decay_control_cu as int, base, nu), q_decay_fp8 as int)
            &&& decay_fits(chroma_level(decay_control_cv as int, base, nv), q_decay_fp8 as int)
        },
    ensures
        final(tf_decay_factor_fp16)@[0] == decay_of(
            *old(n_decay_fp10) as int,
            q_decay_fp8 as int,
            shift_factor as nat,
        ),
        tf_chroma ==> {
            let base = const_0dot7_fp16 as int;
            let u = chroma_level(decay_control_cu as int, base, noise_levels_log1p_fp16[1] as int);
            let v = chroma_level(decay_control_cv as int, base, noise_levels_log1p_fp16[2] as int);
            &&& final(tf_decay_factor_fp16)@[1] == decay_of(u, q_decay_fp8 as int, shift_factor as nat)
            &&& final(tf_decay_factor_fp16)@[2] == decay_of(v, q_decay_fp8 as int, shift_factor as nat)
            &&& *final(n_decay_fp10) == v
        },
        !tf_chroma ==> {
            &&& final(tf_decay_factor_fp16)@[1] == old(tf_decay_factor_fp16)@[1]
            &&& final(tf_decay_factor_fp16)@[2] == old(tf_decay_factor_fp16)@[2]
            &&& *final(n_decay_fp10) == *old(n_decay_fp10)
        },
{
    tf_decay_factor_fp16[0] = decay(*n_decay_fp10, q_decay_fp8, shift_factor);
    if tf_chroma {
        *n_decay_fp10 = (decay_control_cu * (const_0dot7_fp16 + noise_levels_log1p_fp16[1])) / 64;
        tf_decay_factor_fp16[1] = decay(*n_decay_fp10, q_decay_fp8, shift_factor);
        *n_decay_fp10 = (decay_control_cv * (const_0dot7_fp16 + noise_levels_log1p_fp16[2])) / 64;
        tf_decay_factor_fp16[2] = decay(*n_decay_fp10, q_decay_fp8, shift_factor);
    }
}

} // verus!

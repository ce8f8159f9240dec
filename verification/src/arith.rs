//! Integer helpers shared by the other modules: arithmetic shifts as floor
//! divisions, truncating casts as residues, and the small clamps and minima.

use vstd::arithmetic::div_mod::{
    lemma_div_pos_is_pos, lemma_fundamental_div_mod, lemma_fundamental_div_mod_converse,
};
use vstd::arithmetic::mul::{
    lemma_mul_inequality, lemma_mul_is_commutative, lemma_mul_is_distributive_add_other_way,
    lemma_mul_is_distributive_sub, lemma_mul_nonnegative,
};
use vstd::arithmetic::power2::{
    lemma2_to64, lemma2_to64_rest, lemma_pow2_pos, lemma_pow2_strictly_increases, lemma_pow2_unfold, pow2,
};
use vstd::bits::{lemma_u32_shr_is_div, lemma_u64_shl_is_mul, lemma_usize_shr_is_div};
use vstd::prelude::*;

verus! {

/// The value of the 32-bit two's complement pattern congruent to `x`.
pub open spec fn wrap_i32(x: int) -> int {
    (x + 0x8000_0000) % 0x1_0000_0000 - 0x8000_0000
}

/// The value of the 16-bit two's complement pattern congruent to `x`.
pub open spec fn wrap_i16(x: int) -> int {
    (x + 0x8000) % 0x1_0000 - 0x8000
}

/// The value of the 64-bit two's complement pattern congruent to `x`.
pub open spec fn wrap_i64(x: int) -> int {
    (x + 0x8000_0000_0000_0000) % 0x1_0000_0000_0000_0000 - 0x8000_0000_0000_0000
}

/// The absolute value of `x`.
pub open spec fn abs_int(x: int) -> int {
    if x < 0 {
        -x
    } else {
        x
    }
}

/// The smaller of two integers.
pub open spec fn min_int(a: int, b: int) -> int {
    if a <= b {
        a
    } else {
        b
    }
}

/// The larger of two integers.
pub open spec fn max_int(a: int, b: int) -> int {
    if a >= b {
        a
    } else {
        b
    }
}

/// `x` moved into `lo..=hi`.
pub open spec fn clamp_int(x: int, lo: int, hi: int) -> int {
    if x < lo {
        lo
    } else if x > hi {
        hi
    } else {
        x
    }
}

/// The quotient rounded toward zero, for a positive divisor.
pub open spec fn div_trunc(a: int, b: int) -> int {
    if a >= 0 {
        a / b
    } else {
        -((-a) / b)
    }
}

/// `floor(x / 2^n)`.
pub open spec fn shr_int(x: int, n: nat) -> int {
    x / (pow2(n) as int)
}

/// `x / 2^n` rounded to nearest, halves upward; the identity at `n == 0`.
pub open spec fn round_shift(x: int, n: nat) -> int {
    if n == 0 {
        x
    } else {
        (x + pow2((n - 1) as nat) as int) / (pow2(n) as int)
    }
}

/// `f(0) + f(1) + .. + f(n - 1)`.
pub open spec fn total(f: spec_fn(int) -> int, n: int) -> int
    decreases n,
{
    if n <= 0 {
        0
    } else {
        total(f, n - 1) + f(n - 1)
    }
}

/// A sum of terms inside a range lies inside the scaled range.
pub proof fn lemma_total_bounds(f: spec_fn(int) -> int, n: int, lo: int, hi: int)
    requires
        n >= 0,
        forall|i: int| 0 <= i < n ==> lo <= #[trigger] f(i) <= hi,
    ensures
        lo * n <= total(f, n) <= hi * n,
    decreases n,
{
    if n > 0 {
        lemma_total_bounds(f, n - 1, lo, hi);
        lemma_mul_is_distributive_sub(lo, n, 1);
        lemma_mul_is_distributive_sub(hi, n, 1);
    } else {
        assert(lo * n == 0 && hi * n == 0) by (nonlinear_arith)
            requires
                n == 0,
        ;
    }
}

/// Position `i` of a `w`-wide raster, counted row by row.
pub proof fn lemma_raster_index(r: int, c: int, w: int)
    requires
        0 <= c < w,
    ensures
        (r * w + c) / w == r,
        (r * w + c) % w == c,
{
    lemma_fundamental_div_mod_converse(r * w + c, w, r, c);
}

/// A position of a raster lies inside it.
pub proof fn lemma_raster_bounds(r: int, c: int, w: int, h: int)
    requires
        0 <= c < w,
        0 <= r < h,
    ensures
        0 <= r * w + c < w * h,
        r * w + w <= w * h,
{
    lemma_mul_inequality(r + 1, h, w);
    lemma_mul_is_distributive_add_other_way(w, r, 1);
    lemma_mul_is_commutative(w, h);
    lemma_mul_nonnegative(r, w);
}

/// Every position of a raster has a row and a column.
pub proof fn lemma_raster_split(i: int, w: int, h: int)
    requires
        0 < w,
        0 <= i < w * h,
    ensures
        0 <= i / w < h,
        0 <= i % w < w,
        (i / w) * w + i % w == i,
{
    lemma_fundamental_div_mod(i, w);
    lemma_mul_is_commutative(i / w, w);
    lemma_div_pos_is_pos(i, w);
    if i / w >= h {
        lemma_mul_inequality(h, i / w, w);
        lemma_mul_is_commutative(h, w);
    }
}

proof fn lemma_half_of_shift(x: int, n: nat)
    ensures
        (x / (pow2(n) as int)) / 2 == x / (pow2(n + 1) as int),
{
    lemma_pow2_pos(n);
    lemma_pow2_unfold(n + 1);
    let c = pow2(n) as int;
    let q = x / c;
    let r = x % c;
    lemma_fundamental_div_mod(x, c);
    let q2 = q / 2;
    let r2 = q % 2;
    assert(x == q2 * (2 * c) + (c * r2 + r)) by (nonlinear_arith)
        requires
            x == c * q + r,
            q == 2 * q2 + r2,
    ;
    assert(0 <= c * r2 + r < 2 * c) by (nonlinear_arith)
        requires
            0 <= r < c,
            0 <= r2 < 2,
    ;
    lemma_fundamental_div_mod_converse(x, 2 * c, q2, c * r2 + r);
}

pub proof fn lemma_shr_i64(x: i64, n: u32)
    requires
        n < 64,
    ensures
        (x >> n) == shr_int(x as int, n as nat),
    decreases n,
{
    if n == 0 {
        assert(x >> 0u32 == x) by (bit_vector);
        lemma2_to64();
    } else {
        let m: u32 = (n - 1) as u32;
        lemma_shr_i64(x, m);
        assert(0 < n < 64 ==> 2 * (x >> n) <= (x >> ((n - 1) as u32)) && (x >> ((n - 1) as u32)) < 2 * (x >> n)
            + 2) by (bit_vector);
        lemma_half_of_shift(x as int, m as nat);
    }
}

pub proof fn lemma_shr_i32(x: i32, n: u32)
    requires
        n < 32,
    ensures
        (x >> n) == shr_int(x as int, n as nat),
    decreases n,
{
    if n == 0 {
        assert(x >> 0u32 == x) by (bit_vector);
        lemma2_to64();
    } else {
        let m: u32 = (n - 1) as u32;
        lemma_shr_i32(x, m);
        assert(0 < n < 32 ==> 2 * (x >> n) <= (x >> ((n - 1) as u32)) && (x >> ((n - 1) as u32)) < 2 * (x >> n)
            + 2) by (bit_vector);
        lemma_half_of_shift(x as int, m as nat);
    }
}


/// `x >> n` on a signed 64-bit value: the floor of the division by `2^n`.
pub fn shr_i64(x: i64, n: u32) -> (r: i64)
    requires
        n < 64,
    ensures
        r == shr_int(x as int, n as nat),
{
    proof {
        lemma_shr_i64(x, n);
    }
    x >> n
}

/// `x >> n` on a signed 32-bit value: the floor of the division by `2^n`.
pub fn shr_i32(x: i32, n: u32) -> (r: i32)
    requires
        n < 32,
    ensures
        r == shr_int(x as int, n as nat),
{
    proof {
        lemma_shr_i32(x, n);
    }
    x >> n
}

/// `x >> n` on an unsigned 32-bit value.
pub fn shr_u32(x: u32, n: u32) -> (r: u32)
    requires
        n < 32,
    ensures
        r == shr_int(x as int, n as nat),
{
    proof {
        lemma_u32_shr_is_div(x, n);
    }
    x >> n
}

/// `x >> n` on a machine-word value.
pub fn shr_usize(x: usize, n: u32) -> (r: usize)
    requires
        n < 32,
    ensures
        r == shr_int(x as int, n as nat),
{
    proof {
        lemma_usize_shr_is_div(x, n as usize);
    }
    x >> n
}

/// `2^n` as a 64-bit value.
pub fn pow2_i64(n: u32) -> (r: i64)
    requires
        n < 63,
    ensures
        r == pow2(n as nat),
        r > 0,
{
    proof {
        lemma_pow2_pos(n as nat);
        lemma_pow2_strictly_increases(n as nat, 63);
        lemma2_to64_rest();
        lemma_u64_shl_is_mul(1, n as u64);
    }
    (1u64 << n) as i64
}

/// `2^n`.
pub fn pow2_i32(n: u32) -> (r: i32)
    requires
        n < 16,
    ensures
        r == pow2(n as nat),
        0 < r <= 0x8000,
{
    proof {
        lemma2_to64();
        if n < 15 {
            lemma_pow2_strictly_increases(n as nat, 15);
        }
    }
    pow2_i64(n) as i32
}

/// The low 32 bits of a 64-bit value.
pub fn low_u32(x: u64) -> (r: u32)
    ensures
        r == x % 0x1_0000_0000,
{
    assert(x as u32 == x % 0x1_0000_0000) by (bit_vector);
    x as u32
}

/// The low 32 bits of a signed 64-bit value, read as a signed number.
pub fn low_i32(x: i64) -> (r: i32)
    ensures
        r == wrap_i32(x as int),
{
    assert(x as i32 == (x + 0x8000_0000) % 0x1_0000_0000 - 0x8000_0000) by (bit_vector);
    x as i32
}

/// The low 32 bits of a signed 64-bit value, read as an unsigned number.
pub fn low_u32_of_i64(x: i64) -> (r: u32)
    ensures
        r == x as int % 0x1_0000_0000,
{
    assert(x as u32 == x % 0x1_0000_0000) by (bit_vector);
    x as u32
}

/// The 32 bits of an unsigned value, read as a signed number.
pub fn signed_u32(x: u32) -> (r: i32)
    ensures
        r == wrap_i32(x as int),
{
    assert(x as i32 == (x + 0x8000_0000) % 0x1_0000_0000 - 0x8000_0000) by (bit_vector);
    x as i32
}

/// The 32 bits of a signed value, read as an unsigned number.
pub fn unsigned_i32(x: i32) -> (r: u32)
    ensures
        r == x as int % 0x1_0000_0000,
{
    assert(x as u32 == (if x < 0 { x + 0x1_0000_0000 } else { x + 0 })) by (bit_vector);
    x as u32
}

/// A signed 32-bit value sign-extended to 64 bits, read as an unsigned number.
pub fn sign_extended_u64(x: i32) -> (r: u64)
    ensures
        r == x as int % 0x1_0000_0000_0000_0000,
{
    assert(x as u64 == (if x < 0 { x + 0x1_0000_0000_0000_0000 } else { x + 0 })) by (bit_vector);
    x as u64
}

/// The low 16 bits of a signed 32-bit value, read as a signed number.
pub fn low_i16(x: i32) -> (r: i16)
    ensures
        r == wrap_i16(x as int),
{
    assert(x as i16 == (x + 0x8000) % 0x1_0000 - 0x8000) by (bit_vector);
    x as i16
}

/// The low 16 bits of a 32-bit value.
pub fn low_u16(x: u32) -> (r: u16)
    ensures
        r == x % 0x1_0000,
{
    assert(x as u16 == x % 0x1_0000) by (bit_vector);
    x as u16
}

/// The low 8 bits of a 32-bit value.
pub fn low_u8(x: u32) -> (r: u8)
    ensures
        r == x % 0x100,
{
    assert(x as u8 == x % 0x100) by (bit_vector);
    x as u8
}

/// The absolute value.
pub fn abs_i32(x: i32) -> (r: i32)
    requires
        x > i32::MIN,
    ensures
        r == abs_int(x as int),
{
    if x < 0 {
        -x
    } else {
        x
    }
}

/// `x` moved into `lo..=hi`.
pub fn clamp_i32(x: i32, lo: i32, hi: i32) -> (r: i32)
    requires
        lo <= hi,
    ensures
        r == clamp_int(x as int, lo as int, hi as int),
        lo <= r <= hi,
{
    if x < lo {
        lo
    } else if x > hi {
        hi
    } else {
        x
    }
}

} // verus!

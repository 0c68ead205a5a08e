//! Quantization of weights for persistence: a weight in [0, 1] maps to one
//! 8-bit pixel of the exported raster, and back. The round trip loses at
//! most one quantization step.

use vstd::prelude::*;
use crate::fixed::SCALE;
use crate::cell::W_SUM;

verus! {

/// Largest error the export/import round trip can leave on one weight:
/// one 8-bit quantization step of the unit range, with rounding.
pub const QUANT_TOL: i64 = 3_921_570;

/// The exported pixel of one weight: floor of 256 times the weight, capped
/// at the largest 8-bit value.
pub open spec fn spec_quantize(w: i64) -> int {
    let q = w * 256 / (SCALE as int);
    if q > 255 { 255 } else { q }
}

/// The weight read back from one exported pixel.
pub open spec fn spec_dequantize(p: u8) -> int {
    p * (SCALE as int) / 255
}

/// Encodes one weight as one pixel.
pub fn quantize(w: i64) -> (p: u8)
    requires
        0 <= w <= W_SUM,
    ensures
        p == spec_quantize(w),
{
    let q: u64 = ((w as u64) * 256) / (SCALE as u64);
    if q > 255 { 255 } else { q as u8 }
}

/// Decodes one pixel back into a weight in [0, 1].
pub fn dequantize(p: u8) -> (w: i64)
    requires
        true,
    ensures
        w == spec_dequantize(p),
        0 <= w <= SCALE,
{
    proof {
        assert(p * SCALE / 255 <= SCALE) by (nonlinear_arith)
            requires 0 <= p <= 255, SCALE >= 1;
        assert(p * SCALE / 255 >= 0) by (nonlinear_arith)
            requires 0 <= p, SCALE >= 1;
    }
    ((p as u64) * (SCALE as u64) / 255) as i64
}

/// Exporting a weight in [0, 1] and reading it back reproduces it within
/// one quantization step.
pub proof fn lemma_quantize_round_trip(w: i64)
    requires
        0 <= w <= SCALE,
    ensures
        w - QUANT_TOL <= spec_dequantize(spec_quantize(w) as u8) <= w + QUANT_TOL,
{
    let s = SCALE as int;
    let q0 = w * 256 / s;
    vstd::arithmetic::div_mod::lemma_fundamental_div_mod(w * 256, s);
    vstd::arithmetic::div_mod::lemma_mod_division_less_than_divisor(w * 256, s);
    vstd::arithmetic::div_mod::lemma_div_pos_is_pos(w * 256, s);
    assert(q0 * s <= w * 256 < (q0 + 1) * s) by (nonlinear_arith)
        requires
            w * 256 == s * q0 + (w * 256) % s,
            0 <= (w * 256) % s < s;
    if w == SCALE {
        assert(spec_quantize(w) == 255);
        assert(spec_dequantize(255u8) == SCALE);
    } else {
        assert(w * 256 < 256 * s) by (nonlinear_arith)
            requires w < s;
        assert(q0 <= 255) by (nonlinear_arith)
            requires q0 * s <= w * 256, w * 256 < 256 * s, s >= 1;
        let q = q0;
        assert(spec_quantize(w) == q);
        let d = q * s / 255;
        vstd::arithmetic::div_mod::lemma_fundamental_div_mod(q * s, 255);
        vstd::arithmetic::div_mod::lemma_mod_division_less_than_divisor(q * s, 255);
        assert(255 * d <= q * s < 255 * (d + 1)) by (nonlinear_arith)
            requires
                q * s == 255 * (q * s / 255) + (q * s) % 255,
                0 <= (q * s) % 255 < 255,
                d == q * s / 255;
        // Upper bound: 255 d <= q s <= 256 w, so d - w <= w / 255.
        assert(255 * d <= 256 * w) by (nonlinear_arith)
            requires 255 * d <= q * s, q * s <= w * 256;
        assert(d <= w + QUANT_TOL) by (nonlinear_arith)
            requires 255 * d <= 256 * w, 0 <= w <= 1_000_000_000, QUANT_TOL == 3_921_570;
        // Lower bound: 256 w < (q + 1) s and q s < 255 (d + 1), so
        // 256 w < 255 d + 255 + s.
        assert(256 * w < 255 * d + 255 + s) by (nonlinear_arith)
            requires w * 256 < (q0 + 1) * s, q * s < 255 * (d + 1), q == q0;
        assert(d >= w - QUANT_TOL) by (nonlinear_arith)
            requires
                256 * w < 255 * d + 255 + s,
                s == 1_000_000_000,
                0 <= w,
                QUANT_TOL == 3_921_570;
        assert(spec_dequantize(q as u8) == d);
    }
}

} // verus!

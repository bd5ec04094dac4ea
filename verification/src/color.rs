//! The color model: hue/saturation/value to RGB, in exact fixed-point
//! arithmetic. Saturation and value are given in thousandths, so the
//! whole conversion is integer math with truncating division.

use vstd::arithmetic::div_mod::{lemma_div_is_ordered, lemma_div_nonincreasing};
use vstd::prelude::*;

verus! {

/// The byte a channel intensity in millionths maps to, truncating.
pub open spec fn micro_to_byte(u: int) -> int {
    u * 255 / 1000000
}

/// The hue/saturation/value conversion, by the canonical 60-degree
/// sector decomposition: chroma `c = v * s`, match `m = v - c`, and the
/// secondary component `x = c * (1 - |((h / 60) mod 2) - 1|)`, all in
/// fixed point. Saturation and value are in thousandths; products are
/// in millionths. Hues of 300 and above, wrapped or not, fall in the
/// last sector.
pub open spec fn spec_hsv_to_rgb(h: int, s: int, v: int) -> (u8, u8, u8) {
    let c = s * v;
    let m = 1000 * v - c;
    let d = h % 120 - 60;
    let dist = if d < 0 {
        -d
    } else {
        d
    };
    let x = c * (60 - dist) / 60;
    let hi = micro_to_byte(c + m) as u8;
    let mid = micro_to_byte(x + m) as u8;
    let lo = micro_to_byte(m) as u8;
    if h < 60 {
        (hi, mid, lo)
    } else if h < 120 {
        (mid, hi, lo)
    } else if h < 180 {
        (lo, hi, mid)
    } else if h < 240 {
        (lo, mid, hi)
    } else if h < 300 {
        (mid, lo, hi)
    } else {
        (hi, lo, mid)
    }
}

/// Converts a hue in degrees and a saturation and value in thousandths
/// to an RGB triple, by the canonical chroma decomposition. The
/// simplified variant some implementations use, `x = c * ((h / 60) mod
/// 2)`, disagrees with this decomposition and is not reproduced here.
pub fn hsv_to_rgb(h: u16, s_milli: u16, v_milli: u16) -> (rgb: (u8, u8, u8))
    requires
        s_milli <= 1000,
        v_milli <= 1000,
    ensures
        rgb == spec_hsv_to_rgb(h as int, s_milli as int, v_milli as int),
{
    let s: u32 = s_milli as u32;
    let v: u32 = v_milli as u32;
    proof {
        assert(s * v <= 1000000 && s * v <= 1000 * v) by (nonlinear_arith)
            requires
                s <= 1000,
                v <= 1000,
        ;
    }
    let c: u32 = s * v;
    let m: u32 = 1000 * v - c;
    let hm: u32 = (h as u32) % 120;
    let dist: u32 = if hm < 60 {
        60 - hm
    } else {
        hm - 60
    };
    proof {
        assert(c * (60 - dist) <= 60000000) by (nonlinear_arith)
            requires
                c <= 1000000,
                dist <= 60,
        ;
        lemma_div_is_ordered(c * (60 - dist) as int, 60000000, 60);
    }
    let x: u32 = c * (60 - dist) / 60;
    proof {
        lemma_div_nonincreasing((c + m) * 255, 1000000);
        lemma_div_is_ordered(((c + m) * 255) as int, 255000000, 1000000);
        lemma_div_is_ordered(((x + m) * 255) as int, 510000000, 1000000);
        lemma_div_is_ordered((m * 255) as int, 255000000, 1000000);
    }
    let hi: u8 = ((c + m) * 255 / 1000000) as u8;
    let mid: u8 = ((x + m) * 255 / 1000000) as u8;
    let lo: u8 = (m * 255 / 1000000) as u8;
    if h < 60 {
        (hi, mid, lo)
    } else if h < 120 {
        (mid, hi, lo)
    } else if h < 180 {
        (lo, hi, mid)
    } else if h < 240 {
        (lo, mid, hi)
    } else if h < 300 {
        (mid, lo, hi)
    } else {
        (hi, lo, mid)
    }
}

} // verus!

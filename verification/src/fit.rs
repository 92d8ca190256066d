use vstd::prelude::*;
use vstd::arithmetic::div_mod::{lemma_div_is_ordered, lemma_div_multiples_vanish_fancy};

verus! {

/// `num / den` rounded to the nearest integer, halves rounding up.
pub open spec fn div_round(num: int, den: int) -> int
    recommends
        1 <= den,
{
    (2 * num + den) / (2 * den)
}

/// The dimensions of a thumbnail of a `w` × `h` source scaled to the largest
/// size that fits within a `bw` × `bh` box while preserving the source
/// aspect ratio: the binding side fills its bound exactly, the other side is
/// the rounded proportional length, and neither falls below one pixel.
pub open spec fn spec_fit(w: int, h: int, bw: int, bh: int) -> (int, int)
    recommends
        1 <= w && 1 <= h && 1 <= bw && 1 <= bh,
{
    if bw * h <= bh * w {
        let fh = div_round(h * bw, w);
        (bw, if fh < 1 { 1int } else { fh })
    } else {
        let fw = div_round(w * bh, h);
        (if fw < 1 { 1int } else { fw }, bh)
    }
}

proof fn lemma_div_round_bound(num: int, den: int, bound: int)
    requires
        1 <= den,
        0 <= num <= bound * den,
    ensures
        div_round(num, den) <= bound,
        0 <= div_round(num, den),
{
    lemma_div_is_ordered(2 * num + den, 2 * (bound * den) + den, 2 * den);
    lemma_div_multiples_vanish_fancy(bound, den, 2 * den);
    assert(2 * (bound * den) + den == (2 * den) * bound + den) by (nonlinear_arith);
    lemma_div_is_ordered(0, 2 * num + den, 2 * den);
}

/// Computes the thumbnail dimensions for a source within a bounding box,
/// exactly as `spec_fit` states them: an aspect-preserving fit, never a
/// forced stretch.
pub fn fit_dimensions(w: u32, h: u32, bw: u32, bh: u32) -> (r: (u32, u32))
    requires
        1 <= w,
        1 <= h,
        1 <= bw,
        1 <= bh,
    ensures
        (r.0 as int, r.1 as int) == spec_fit(w as int, h as int, bw as int, bh as int),
        1 <= r.0 <= bw,
        1 <= r.1 <= bh,
        r.0 == bw || r.1 == bh,
{
    let wi = w as u64;
    let hi = h as u64;
    let bwi = bw as u64;
    let bhi = bh as u64;
    proof {
        assert((bwi as int) * (hi as int) < 0x10000000000000000 && (bhi as int) * (wi as int)
            < 0x10000000000000000 && (hi as int) * (bwi as int) < 0x10000000000000000 && (wi as int)
            * (bhi as int) < 0x10000000000000000) by (nonlinear_arith)
            requires
                bwi < 0x100000000,
                hi < 0x100000000,
                bhi < 0x100000000,
                wi < 0x100000000,
        ;
    }
    if bwi * hi <= bhi * wi {
        let num: u128 = (hi as u128) * (bwi as u128);
        let den: u128 = wi as u128;
        let fh: u128 = (2 * num + den) / (2 * den);
        proof {
            lemma_div_round_bound(num as int, den as int, bh as int);
            assert(num <= (bh as int) * (den as int)) by (nonlinear_arith)
                requires
                    num == (h as int) * (bw as int),
                    den == w as int,
                    (bw as int) * (h as int) <= (bh as int) * (w as int),
            ;
        }
        let fh32: u32 = if fh < 1 {
            1u32
        } else {
            fh as u32
        };
        (bw, fh32)
    } else {
        let num: u128 = (wi as u128) * (bhi as u128);
        let den: u128 = hi as u128;
        let fw: u128 = (2 * num + den) / (2 * den);
        proof {
            lemma_div_round_bound(num as int, den as int, bw as int);
            assert(num <= (bw as int) * (den as int)) by (nonlinear_arith)
                requires
                    num == (w as int) * (bh as int),
                    den == h as int,
                    !((bw as int) * (h as int) <= (bh as int) * (w as int)),
            ;
        }
        let fw32: u32 = if fw < 1 {
            1u32
        } else {
            fw as u32
        };
        (fw32, bh)
    }
}

} // verus!

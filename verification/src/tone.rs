use vstd::prelude::*;
use vstd::arithmetic::div_mod::{lemma_div_is_ordered, lemma_div_multiples_vanish_fancy};
use vstd::slice::slice_to_vec;

use crate::params::ThumbnailParams;

verus! {

/// The linear intensity remap of one sample: everything at or below `lo`
/// maps to 0, everything at or above `hi` maps to 255, and the interval
/// between is stretched linearly across the full output range.
pub open spec fn remap_byte(v: u8, lo: u8, hi: u8) -> u8 {
    if v <= lo {
        0u8
    } else if hi <= v {
        255u8
    } else {
        (((v - lo) * 255) / (hi - lo)) as u8
    }
}

/// The remap applied to every sample of a buffer.
pub open spec fn remap_seq(s: Seq<u8>, lo: u8, hi: u8) -> Seq<u8> {
    s.map_values(|v: u8| remap_byte(v, lo, hi))
}

/// The smallest sample of a buffer (255 for an empty one).
pub open spec fn seq_min(s: Seq<u8>) -> u8
    decreases s.len(),
{
    if s.len() == 0 {
        255u8
    } else {
        let m = seq_min(s.drop_last());
        if s.last() < m {
            s.last()
        } else {
            m
        }
    }
}

/// The largest sample of a buffer (0 for an empty one).
pub open spec fn seq_max(s: Seq<u8>) -> u8
    decreases s.len(),
{
    if s.len() == 0 {
        0u8
    } else {
        let m = seq_max(s.drop_last());
        if m < s.last() {
            s.last()
        } else {
            m
        }
    }
}

/// Autocontrast: the observed intensity range is stretched to fill the full
/// output range. A buffer with no spread (or no samples) is left unchanged —
/// there is no histogram to stretch.
pub open spec fn spec_autocontrast(s: Seq<u8>) -> Seq<u8> {
    if s.len() == 0 || seq_min(s) == seq_max(s) {
        s
    } else {
        remap_seq(s, seq_min(s), seq_max(s))
    }
}

/// The whole tonal pass of a request: a linear remap over the supplied
/// bounds when either bound is present (an absent bound defaulting to the
/// end of the range), then an autocontrast stretch when requested.
pub open spec fn spec_tone(s: Seq<u8>, p: ThumbnailParams) -> Seq<u8> {
    let lo = match p.min {
        Some(m) => m,
        None => 0u8,
    };
    let hi = match p.max {
        Some(m) => m,
        None => 255u8,
    };
    let s1 = if p.min is Some || p.max is Some {
        remap_seq(s, lo, hi)
    } else {
        s
    };
    if p.autocontrast == Some(true) {
        spec_autocontrast(s1)
    } else {
        s1
    }
}

fn remap_exec(v: u8, lo: u8, hi: u8) -> (r: u8)
    ensures
        r == remap_byte(v, lo, hi),
{
    if v <= lo {
        0u8
    } else if hi <= v {
        255u8
    } else {
        let num: u32 = (v - lo) as u32 * 255;
        let den: u32 = (hi - lo) as u32;
        proof {
            assert(num <= den * 255) by (nonlinear_arith)
                requires
                    num == (v - lo) * 255,
                    den == hi - lo,
                    lo < v < hi,
            ;
            lemma_div_is_ordered(num as int, (den * 255) as int, den as int);
            lemma_div_multiples_vanish_fancy(255, 0, den as int);
            assert(den * 255 == (den as int) * 255) by (nonlinear_arith);
        }
        (num / den) as u8
    }
}

/// Applies the linear remap to every sample.
pub fn tone_map(pixels: &Vec<u8>, lo: u8, hi: u8) -> (out: Vec<u8>)
    ensures
        out@ == remap_seq(pixels@, lo, hi),
{
    let mut out: Vec<u8> = Vec::new();
    let mut i: usize = 0;
    while i < pixels.len()
        invariant
            i <= pixels.len(),
            out@ == pixels@.take(i as int).map_values(|v: u8| remap_byte(v, lo, hi)),
        decreases pixels.len() - i,
    {
        out.push(remap_exec(pixels[i], lo, hi));
        i = i + 1;
        assert(out@ =~= pixels@.take(i as int).map_values(|v: u8| remap_byte(v, lo, hi)));
    }
    assert(pixels@.take(pixels@.len() as int) =~= pixels@);
    out
}

/// Finds the smallest and largest sample of a buffer.
pub fn observed_bounds(pixels: &Vec<u8>) -> (r: (u8, u8))
    ensures
        r.0 == seq_min(pixels@),
        r.1 == seq_max(pixels@),
{
    let mut lo: u8 = 255;
    let mut hi: u8 = 0;
    let mut i: usize = 0;
    while i < pixels.len()
        invariant
            i <= pixels.len(),
            lo == seq_min(pixels@.take(i as int)),
            hi == seq_max(pixels@.take(i as int)),
        decreases pixels.len() - i,
    {
        let v = pixels[i];
        proof {
            assert(pixels@.take(i + 1).drop_last() =~= pixels@.take(i as int));
            assert(pixels@.take(i + 1).last() == pixels@[i as int]);
        }
        if v < lo {
            lo = v;
        }
        if v > hi {
            hi = v;
        }
        i = i + 1;
    }
    assert(pixels@.take(pixels@.len() as int) =~= pixels@);
    (lo, hi)
}

/// For any non-empty buffer the smallest sample is at most the largest.
pub proof fn lemma_min_le_max(s: Seq<u8>)
    requires
        s.len() >= 1,
    ensures
        seq_min(s) <= s.last() <= seq_max(s),
{
}

/// Runs the full tonal pass of a request over a raw sample buffer, exactly
/// as `spec_tone` states it. The buffer length never changes.
pub fn apply_tone(pixels: &Vec<u8>, params: &ThumbnailParams) -> (out: Vec<u8>)
    ensures
        out@ == spec_tone(pixels@, *params),
        out@.len() == pixels@.len(),
{
    let explicit = params.min.is_some() || params.max.is_some();
    let mut cur: Vec<u8>;
    if explicit {
        let lo = match params.min {
            Some(m) => m,
            None => 0u8,
        };
        let hi = match params.max {
            Some(m) => m,
            None => 255u8,
        };
        cur = tone_map(pixels, lo, hi);
    } else {
        cur = slice_to_vec(pixels.as_slice());
    }
    let auto = match params.autocontrast {
        Some(b) => b,
        None => false,
    };
    if auto && cur.len() > 0 {
        let (mn, mx) = observed_bounds(&cur);
        proof {
            lemma_min_le_max(cur@);
        }
        if mn < mx {
            cur = tone_map(&cur, mn, mx);
        }
    }
    cur
}

} // verus!

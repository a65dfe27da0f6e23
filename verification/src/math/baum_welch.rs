//! Probability-vector normalization shared by the model and the detector.

use vstd::prelude::*;

use crate::SCALE;

verus! {

/// Negative entries are treated as zero before normalizing.
pub open spec fn pos_part(x: int) -> int {
    if x < 0 {
        0
    } else {
        x
    }
}

/// Entry `k` of the detector-side normalization of a mass triple: negative
/// masses count as zero; a vanishing total falls back to the ranging-biased
/// `[0, 1, 0]`; otherwise the first two entries take their truncated share
/// of `SCALE` and the last entry absorbs the division remainder, so the
/// three entries always total `SCALE` exactly.
pub open spec fn ranging_norm3_at(p: [i64; 3], k: int) -> int {
    let a = pos_part(p[0] as int);
    let b = pos_part(p[1] as int);
    let c = pos_part(p[2] as int);
    let s = a + b + c;
    if s <= 0 {
        if k == 1 {
            SCALE as int
        } else {
            0
        }
    } else {
        if k == 0 {
            a * SCALE / s
        } else if k == 1 {
            b * SCALE / s
        } else {
            SCALE - a * SCALE / s - b * SCALE / s
        }
    }
}

/// Normalize three fixed-point masses into a probability vector: negative
/// entries are clamped to zero; a vanishing total falls back to the
/// ranging-biased distribution `[0, 1, 0]`; otherwise each entry becomes its
/// share of [`SCALE`], the last share carrying the division remainder so
/// that the result always totals exactly `SCALE`.
pub fn normalize_probs(probs: [i64; 3]) -> (out: [i64; 3])
    ensures
        out[0] == ranging_norm3_at(probs, 0),
        out[1] == ranging_norm3_at(probs, 1),
        out[2] == ranging_norm3_at(probs, 2),
        0 <= out[0] <= SCALE,
        0 <= out[1] <= SCALE,
        0 <= out[2] <= SCALE,
        out[0] + out[1] + out[2] == SCALE,
{
    let a: i64 = if probs[0] < 0 {
        0
    } else {
        probs[0]
    };
    let b: i64 = if probs[1] < 0 {
        0
    } else {
        probs[1]
    };
    let c: i64 = if probs[2] < 0 {
        0
    } else {
        probs[2]
    };
    let s: i128 = a as i128 + b as i128 + c as i128;
    if s <= 0 {
        return [0, SCALE, 0];
    }
    let q0: i128 = (a as i128) * (SCALE as i128) / s;
    let q1: i128 = (b as i128) * (SCALE as i128) / s;
    proof {
        lemma_share_pair(a as int, b as int, c as int, SCALE as int);
    }
    let q2: i64 = SCALE - (q0 as i64) - (q1 as i64);
    [q0 as i64, q1 as i64, q2]
}

/// Splitting `m` ticks between the first two of three nonnegative masses by
/// truncated division keeps each share in `[0, m]` and the pair within `m`,
/// so the remainder assigned to the third share is also in `[0, m]`.
pub proof fn lemma_share_pair(a: int, b: int, c: int, m: int)
    requires
        a >= 0,
        b >= 0,
        c >= 0,
        a + b + c > 0,
        m > 0,
    ensures
        0 <= a * m / (a + b + c) <= m,
        0 <= b * m / (a + b + c) <= m,
        a * m / (a + b + c) + b * m / (a + b + c) <= m,
{
    let s = a + b + c;
    crate::lemma_scaled_fraction_bound(a, m, s);
    crate::lemma_scaled_fraction_bound(b, m, s);
    vstd::arithmetic::div_mod::lemma_fundamental_div_mod(a * m, s);
    vstd::arithmetic::div_mod::lemma_fundamental_div_mod(b * m, s);
    vstd::arithmetic::div_mod::lemma_mod_bound(a * m, s);
    vstd::arithmetic::div_mod::lemma_mod_bound(b * m, s);
    let qa = a * m / s;
    let qb = b * m / s;
    assert(s * (qa + qb) <= (a + b) * m) by (nonlinear_arith)
        requires
            a * m == s * qa + (a * m) % s,
            b * m == s * qb + (b * m) % s,
            (a * m) % s >= 0,
            (b * m) % s >= 0,
    ;
    assert(qa + qb <= m) by (nonlinear_arith)
        requires
            s * (qa + qb) <= (a + b) * m,
            a + b <= s,
            m > 0,
            s > 0,
    ;
}

} // verus!

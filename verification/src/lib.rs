//! Inference core of a three-state market-regime classifier.
//!
//! The crate turns price/volume history into feature rows, carries the
//! parameters of a diagonal-covariance Gaussian hidden Markov model, runs the
//! scaled forward pass that produces a state posterior, and maintains the
//! regime detector's labelled state, confidence scoring, transition
//! confirmation and snapshot bookkeeping.
//!
//! Every fractional quantity (prices, probabilities, ratios, modifiers) is a
//! signed 64-bit fixed-point number scaled by [`SCALE`], i.e. carrying nine
//! fractional decimal digits.  Host code that works in binary floating point
//! converts at the boundary; everything in this crate is integer arithmetic
//! with proved bounds.

use vstd::prelude::*;

pub mod features;
pub mod hmm;
pub mod math;
pub mod regime;

verus! {

/// Fixed-point unit: one whole unit equals `SCALE` ticks (1e-9 resolution).
pub const SCALE: i64 = 1_000_000_000;

/// Largest magnitude the numeric primitives admit for a series value; this
/// keeps every intermediate product of the pipeline inside `i128`.
pub const VAL_LIMIT: i64 = 1_000_000_000_000_000_000;

pub open spec fn abs_int(a: int) -> int {
    if a < 0 {
        -a
    } else {
        a
    }
}

pub open spec fn max_int(a: int, b: int) -> int {
    if a >= b {
        a
    } else {
        b
    }
}

pub open spec fn min_int(a: int, b: int) -> int {
    if a <= b {
        a
    } else {
        b
    }
}

/// Truncating (round-toward-zero) integer division, the semantics of Rust's
/// `/` operator on signed integers.
pub open spec fn div_trunc(a: int, b: int) -> int {
    let q = abs_int(a) / abs_int(b);
    if (a >= 0) == (b >= 0) {
        q
    } else {
        -q
    }
}

/// Saturation of a mathematical integer into the `i64` range.
pub open spec fn sat_i64(a: int) -> int {
    if a > i64::MAX {
        i64::MAX as int
    } else if a < i64::MIN {
        i64::MIN as int
    } else {
        a
    }
}

/// Every element of `s` lies in `[-b, b]`.
pub open spec fn bounded_i64(s: Seq<i64>, b: int) -> bool {
    forall|i: int| 0 <= i < s.len() ==> -b <= #[trigger] s[i] <= b
}

/// `|num| <= d * b` with `d > 0` bounds the truncated quotient by `b`.
pub proof fn lemma_div_trunc_bound(num: int, d: int, b: int)
    requires
        d > 0,
        b >= 0,
        -(d * b) <= num <= d * b,
    ensures
        -b <= div_trunc(num, d) <= b,
{
    vstd::arithmetic::div_mod::lemma_div_is_ordered(abs_int(num), d * b, d);
    vstd::arithmetic::div_mod::lemma_div_multiples_vanish(b, d);
    vstd::arithmetic::div_mod::lemma_div_pos_is_pos(abs_int(num), d);
}

/// The idle-target blend: the trend score and the model bias are mixed by
/// `blend_factor` (clamped to `[0, 1]`), scaled by the sensitivity,
/// subtracted from the base target and clamped into `[floor, ceiling]`.
pub open spec fn blended_idle_target_spec(
    trend: int,
    bias: int,
    blend_factor: int,
    base: int,
    sens: int,
    floor: int,
    ceiling: int,
) -> int {
    let bl = crate::math::ema::clamp_spec(blend_factor, 0, SCALE as int);
    let blended = div_trunc(bl * trend + ((SCALE as int) - bl) * bias, SCALE as int);
    crate::math::ema::clamp_spec(base - div_trunc(sens * blended, SCALE as int), floor, ceiling)
}

/// Blend a trend score with the model's bias signal into an idle inventory
/// target.
pub fn compute_blended_idle_target(
    trend_score: i64,
    hmm_bias: i64,
    blend_factor: i64,
    base_target: i64,
    sensitivity: i64,
    floor: i64,
    ceiling: i64,
) -> (r: i64)
    requires
        -SCALE <= trend_score <= SCALE,
        -SCALE <= hmm_bias <= SCALE,
        -VAL_LIMIT <= base_target <= VAL_LIMIT,
        -VAL_LIMIT <= sensitivity <= VAL_LIMIT,
        floor <= ceiling,
    ensures
        r == blended_idle_target_spec(
            trend_score as int,
            hmm_bias as int,
            blend_factor as int,
            base_target as int,
            sensitivity as int,
            floor as int,
            ceiling as int,
        ),
{
    let bl: i64 = crate::math::ema::clamp(blend_factor, 0, SCALE);
    proof {
        assert(-(SCALE as int * SCALE as int) <= bl as int * trend_score as int <= SCALE as int
            * SCALE as int) by (nonlinear_arith)
            requires
                0 <= bl as int <= SCALE as int,
                -(SCALE as int) <= trend_score as int <= SCALE as int,
        ;
        assert(-(SCALE as int * SCALE as int) <= ((SCALE as int) - bl as int)
            * hmm_bias as int <= SCALE as int * SCALE as int) by (nonlinear_arith)
            requires
                0 <= (SCALE as int) - bl as int <= SCALE as int,
                -(SCALE as int) <= hmm_bias as int <= SCALE as int,
        ;
        lemma_div_trunc_bound(
            bl as int * trend_score as int + ((SCALE as int) - bl as int) * hmm_bias as int,
            SCALE as int,
            2 * SCALE as int,
        );
    }
    let num: i128 = (bl as i128) * (trend_score as i128) + ((SCALE - bl) as i128)
        * (hmm_bias as i128);
    let blended: i128 = num / (SCALE as i128);
    proof {
        assert(-(VAL_LIMIT as int * (2 * SCALE as int)) <= sensitivity as int * blended
            <= VAL_LIMIT as int * (2 * SCALE as int)) by (nonlinear_arith)
            requires
                -(VAL_LIMIT as int) <= sensitivity as int <= VAL_LIMIT as int,
                -(2 * SCALE as int) <= blended <= 2 * SCALE as int,
        ;
        assert(VAL_LIMIT as int * (2 * SCALE as int) == SCALE as int * (2 * VAL_LIMIT as int))
            by (nonlinear_arith);
        lemma_div_trunc_bound(
            sensitivity as int * blended,
            SCALE as int,
            2 * VAL_LIMIT as int,
        );
    }
    let scaled: i128 = (sensitivity as i128) * blended / (SCALE as i128);
    let raw: i128 = (base_target as i128) - scaled;
    let clamped: i128 = if raw < (floor as i128) {
        floor as i128
    } else if raw > (ceiling as i128) {
        ceiling as i128
    } else {
        raw
    };
    clamped as i64
}

/// Grid-bias directives derived from a regime state: a placement mode and
/// the spacing multipliers and size skew that go with it.
pub struct GridBias {
    pub mode: &'static str,
    pub entry_spacing_mult_a: i64,
    pub entry_spacing_mult_b: i64,
    pub size_skew_override: Option<i64>,
}

/// Map a regime state to grid directives: symmetric below the confidence
/// threshold; otherwise long- or short-biased by the sign of the bias
/// signal, with spacing widened by half the bias magnitude on the favoured
/// side, tightened by 0.3 of it (floored at 0.6) on the other, and a size
/// skew of 0.3 of it capped at 0.30.
pub fn compute_grid_bias(regime_state: &crate::regime::RegimeState, confidence_threshold: i64) -> (g:
    GridBias)
    requires
        -SCALE <= regime_state.bias_signal <= SCALE,
    ensures
        regime_state.confidence < confidence_threshold ==> (g.mode@ == "symmetric"@
            && g.entry_spacing_mult_a == SCALE && g.entry_spacing_mult_b == SCALE
            && g.size_skew_override is None),
        regime_state.confidence >= confidence_threshold ==> ({
            let ab = abs_int(regime_state.bias_signal as int);
            let wide = SCALE + ab / 2;
            let tight = max_int(SCALE - ab * 3 / 10, 600_000_000);
            let skew = min_int(ab * 3 / 10, 300_000_000);
            if regime_state.bias_signal > 0 {
                g.mode@ == "long_bias"@ && g.entry_spacing_mult_a == wide
                    && g.entry_spacing_mult_b == tight && g.size_skew_override == Some(
                    skew as i64,
                )
            } else {
                g.mode@ == "short_bias"@ && g.entry_spacing_mult_a == tight
                    && g.entry_spacing_mult_b == wide && g.size_skew_override == Some(
                    (-skew) as i64,
                )
            }
        }),
{
    if regime_state.confidence < confidence_threshold {
        return GridBias {
            mode: "symmetric",
            entry_spacing_mult_a: SCALE,
            entry_spacing_mult_b: SCALE,
            size_skew_override: None,
        };
    }
    let bias = regime_state.bias_signal;
    let ab: i64 = if bias < 0 {
        -bias
    } else {
        bias
    };
    let wide: i64 = SCALE + ab / 2;
    let m3: i64 = ab * 3 / 10;
    let tight: i64 = if SCALE - m3 < 600_000_000 {
        600_000_000
    } else {
        SCALE - m3
    };
    let skew: i64 = if m3 > 300_000_000 {
        300_000_000
    } else {
        m3
    };
    if bias > 0 {
        GridBias {
            mode: "long_bias",
            entry_spacing_mult_a: wide,
            entry_spacing_mult_b: tight,
            size_skew_override: Some(skew),
        }
    } else {
        GridBias {
            mode: "short_bias",
            entry_spacing_mult_a: tight,
            entry_spacing_mult_b: wide,
            size_skew_override: Some(-skew),
        }
    }
}

/// For `0 <= a <= s` and `m >= 0`, the quotient `a * m / s` stays in `[0, m]`.
pub proof fn lemma_scaled_fraction_bound(a: int, m: int, s: int)
    requires
        0 <= a <= s,
        0 < s,
        0 <= m,
    ensures
        0 <= a * m / s <= m,
{
    vstd::arithmetic::mul::lemma_mul_inequality(a, s, m);
    vstd::arithmetic::div_mod::lemma_div_is_ordered(a * m, s * m, s);
    vstd::arithmetic::mul::lemma_mul_is_commutative(s, m);
    vstd::arithmetic::div_mod::lemma_div_multiples_vanish(m, s);
    vstd::arithmetic::mul::lemma_mul_nonnegative(a, m);
    vstd::arithmetic::div_mod::lemma_div_pos_is_pos(a * m, s);
}

} // verus!

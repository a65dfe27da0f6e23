//! Clamping, first differences and exponentially weighted moving averages on
//! fixed-point series.

use vstd::prelude::*;

use crate::{bounded_i64, div_trunc, SCALE, VAL_LIMIT};

verus! {

pub open spec fn clamp_spec(value: int, lo: int, hi: int) -> int {
    if value < lo {
        lo
    } else if value > hi {
        hi
    } else {
        value
    }
}

/// Clamp `value` into `[lo, hi]` (checking the lower bound first, as the
/// caller-facing contract states).
pub fn clamp(value: i64, lo: i64, hi: i64) -> (r: i64)
    ensures
        r == clamp_spec(value as int, lo as int, hi as int),
{
    if value < lo {
        lo
    } else if value > hi {
        hi
    } else {
        value
    }
}

/// The effective smoothing span: floored at 1.
pub open spec fn eff_span(span: int) -> int {
    if span < 1 {
        1
    } else {
        span
    }
}

/// One smoothing step with weight `2 / (span + 1)`:
/// `(2 * x + (span - 1) * prev) / (span + 1)`, rounded toward zero.
pub open spec fn ema_step(prev: int, x: int, span: int) -> int {
    div_trunc(2 * x + (span - 1) * prev, span + 1)
}

/// Value of the exponentially weighted moving average of `s` at index `i`,
/// seeded with `s[0]`.
pub open spec fn ema_at(s: Seq<i64>, span: int, i: int) -> int
    decreases i,
{
    if i <= 0 {
        s[0] as int
    } else {
        ema_step(ema_at(s, span, i - 1), s[i] as int, span)
    }
}

/// A smoothing step never leaves the interval `[-b, b]` that contains both of
/// its operands.
pub proof fn lemma_ema_step_bounded(prev: int, x: int, span: int, b: int)
    requires
        span >= 1,
        b >= 0,
        -b <= prev <= b,
        -b <= x <= b,
    ensures
        -b <= ema_step(prev, x, span) <= b,
{
    let num = 2 * x + (span - 1) * prev;
    assert(-((span + 1) * b) <= num <= (span + 1) * b) by (nonlinear_arith)
        requires
            span >= 1,
            b >= 0,
            -b <= prev <= b,
            -b <= x <= b,
            num == 2 * x + (span - 1) * prev,
    ;
    crate::lemma_div_trunc_bound(num, span + 1, b);
}

/// The moving average stays within the bound of its input series.
pub proof fn lemma_ema_at_bounded(s: Seq<i64>, span: int, i: int, b: int)
    requires
        span >= 1,
        b >= 0,
        0 <= i < s.len(),
        bounded_i64(s, b),
    ensures
        -b <= ema_at(s, span, i) <= b,
    decreases i,
{
    if i <= 0 {
    } else {
        lemma_ema_at_bounded(s, span, i - 1, b);
        lemma_ema_step_bounded(ema_at(s, span, i - 1), s[i] as int, span, b);
    }
}

/// Exponentially weighted moving average with smoothing factor
/// `2 / (span + 1)`, seeded with the first element.  Returns one output per
/// input element; an empty series yields an empty result.
pub fn ema_series(series: &[i64], span: usize) -> (out: Vec<i64>)
    requires
        bounded_i64(series@, VAL_LIMIT as int),
        span <= 1_000_000_000,
    ensures
        out.len() == series.len(),
        bounded_i64(out@, VAL_LIMIT as int),
        forall|i: int|
            0 <= i < series.len() ==> #[trigger] out@[i] == ema_at(
                series@,
                eff_span(span as int),
                i,
            ),
{
    let mut out: Vec<i64> = Vec::new();
    if series.len() == 0 {
        return out;
    }
    let sp: i64 = if span < 1 {
        1
    } else {
        span as i64
    };
    out.push(series[0]);
    let mut i: usize = 1;
    while i < series.len()
        invariant
            1 <= i <= series.len(),
            out.len() == i,
            sp == eff_span(span as int),
            1 <= sp <= 1_000_000_000,
            bounded_i64(series@, VAL_LIMIT as int),
            bounded_i64(out@, VAL_LIMIT as int),
            forall|j: int|
                0 <= j < i ==> #[trigger] out@[j] == ema_at(series@, sp as int, j),
        decreases series.len() - i,
    {
        let prev: i64 = out[i - 1];
        let x: i64 = series[i];
        proof {
            assert(-((sp - 1) as int * VAL_LIMIT as int) <= (sp - 1) as int * prev as int <= (sp
                - 1) as int * VAL_LIMIT as int) by (nonlinear_arith)
                requires
                    1 <= sp,
                    -VAL_LIMIT as int <= prev as int <= VAL_LIMIT as int,
            ;
        }
        let num: i128 = 2 * (x as i128) + ((sp - 1) as i128) * (prev as i128);
        let q128: i128 = num / ((sp + 1) as i128);
        proof {
            lemma_ema_step_bounded(prev as int, x as int, sp as int, VAL_LIMIT as int);
            assert(q128 == ema_step(prev as int, x as int, sp as int));
        }
        let q: i64 = q128 as i64;
        out.push(q);
        proof {
            assert(out@[i as int] == ema_at(series@, sp as int, i as int));
        }
        i = i + 1;
    }
    out
}

/// Positive part of a price change.
pub open spec fn gain_of(d: int) -> int {
    if d > 0 {
        d
    } else {
        0
    }
}

/// Magnitude of a negative price change.
pub open spec fn loss_of(d: int) -> int {
    if d > 0 {
        0
    } else {
        -d
    }
}

/// Price change at index `i` (meaningful for `i >= 1`).
pub open spec fn delta_at(c: Seq<i64>, i: int) -> int {
    c[i] as int - c[i - 1] as int
}

/// Total gain over the deltas at indices `1..k`.
pub open spec fn sum_gains(c: Seq<i64>, k: int) -> int
    decreases k,
{
    if k <= 0 {
        0
    } else {
        sum_gains(c, k - 1) + gain_of(delta_at(c, k))
    }
}

/// Total loss over the deltas at indices `1..k`.
pub open spec fn sum_losses(c: Seq<i64>, k: int) -> int
    decreases k,
{
    if k <= 0 {
        0
    } else {
        sum_losses(c, k - 1) + loss_of(delta_at(c, k))
    }
}

/// Wilder-smoothed average gain feeding the RSI at index `i`: seeded with
/// the plain average of the first `p` deltas, then smoothed with weight
/// `1 / p`.
pub open spec fn avg_gain_at(c: Seq<i64>, p: int, i: int) -> int
    decreases i,
{
    if i <= p || i <= 0 {
        sum_gains(c, p) / p
    } else {
        (avg_gain_at(c, p, i - 1) * (p - 1) + gain_of(delta_at(c, i))) / p
    }
}

/// Wilder-smoothed average loss feeding the RSI at index `i`.
pub open spec fn avg_loss_at(c: Seq<i64>, p: int, i: int) -> int
    decreases i,
{
    if i <= p || i <= 0 {
        sum_losses(c, p) / p
    } else {
        (avg_loss_at(c, p, i - 1) * (p - 1) + loss_of(delta_at(c, i))) / p
    }
}

/// RSI value derived from smoothed average gain and loss:
/// `100 - 100 / (1 + rs)` with `rs = gain / max(loss, one tick)`, in
/// fixed-point.
pub open spec fn rsi_from_avgs(g: int, l: int) -> int {
    let rs = g * (SCALE as int) / crate::max_int(l, 1);
    100 * (SCALE as int) - 100 * (SCALE as int) * (SCALE as int) / ((SCALE as int) + rs)
}

/// The RSI of `c` at index `i`, defined from index `p` on.
pub open spec fn rsi_at(c: Seq<i64>, p: int, i: int) -> int {
    rsi_from_avgs(avg_gain_at(c, p, i), avg_loss_at(c, p, i))
}

/// The partial gain/loss sums stay within `k` times the largest delta.
proof fn lemma_sums_bounded(c: Seq<i64>, k: int, b: int)
    requires
        b >= 0,
        0 <= k < c.len(),
        bounded_i64(c, b),
    ensures
        0 <= sum_gains(c, k) <= k * (2 * b),
        0 <= sum_losses(c, k) <= k * (2 * b),
    decreases k,
{
    if k <= 0 {
    } else {
        lemma_sums_bounded(c, k - 1, b);
        assert((k - 1) * (2 * b) + 2 * b == k * (2 * b)) by (nonlinear_arith);
    }
}

/// The smoothed averages stay within twice the series bound.
pub proof fn lemma_avgs_bounded(c: Seq<i64>, p: int, i: int, b: int)
    requires
        b >= 0,
        1 <= p < c.len(),
        0 <= i < c.len(),
        bounded_i64(c, b),
    ensures
        0 <= avg_gain_at(c, p, i) <= 2 * b,
        0 <= avg_loss_at(c, p, i) <= 2 * b,
    decreases i,
{
    if i <= p {
        lemma_sums_bounded(c, p, b);
        assert(p * (2 * b) <= p * (2 * b));
        crate::lemma_div_trunc_bound(sum_gains(c, p), p, 2 * b);
        crate::lemma_div_trunc_bound(sum_losses(c, p), p, 2 * b);
        vstd::arithmetic::div_mod::lemma_div_pos_is_pos(sum_gains(c, p), p);
        vstd::arithmetic::div_mod::lemma_div_pos_is_pos(sum_losses(c, p), p);
    } else {
        lemma_avgs_bounded(c, p, i - 1, b);
        let g = avg_gain_at(c, p, i - 1);
        let l = avg_loss_at(c, p, i - 1);
        assert(0 <= g * (p - 1) + gain_of(delta_at(c, i)) <= p * (2 * b)) by (nonlinear_arith)
            requires
                0 <= g <= 2 * b,
                0 <= gain_of(delta_at(c, i)) <= 2 * b,
                p >= 1,
                b >= 0,
        ;
        assert(0 <= l * (p - 1) + loss_of(delta_at(c, i)) <= p * (2 * b)) by (nonlinear_arith)
            requires
                0 <= l <= 2 * b,
                0 <= loss_of(delta_at(c, i)) <= 2 * b,
                p >= 1,
                b >= 0,
        ;
        crate::lemma_div_trunc_bound(g * (p - 1) + gain_of(delta_at(c, i)), p, 2 * b);
        crate::lemma_div_trunc_bound(l * (p - 1) + loss_of(delta_at(c, i)), p, 2 * b);
        vstd::arithmetic::div_mod::lemma_div_pos_is_pos(g * (p - 1) + gain_of(delta_at(c, i)), p);
        vstd::arithmetic::div_mod::lemma_div_pos_is_pos(l * (p - 1) + loss_of(delta_at(c, i)), p);
    }
}

/// An RSI derived from nonnegative averages always lies in `[0, 100]`.
pub proof fn lemma_rsi_bounds(g: int, l: int)
    requires
        g >= 0,
        l >= 0,
    ensures
        0 <= rsi_from_avgs(g, l) <= 100 * SCALE,
{
    let d = crate::max_int(l, 1);
    vstd::arithmetic::mul::lemma_mul_nonnegative(g, SCALE as int);
    vstd::arithmetic::div_mod::lemma_div_pos_is_pos(g * (SCALE as int), d);
    let rs = g * (SCALE as int) / d;
    vstd::arithmetic::div_mod::lemma_div_pos_is_pos(
        100 * (SCALE as int) * (SCALE as int),
        (SCALE as int) + rs,
    );
    vstd::arithmetic::div_mod::lemma_div_is_ordered_by_denominator(
        100 * (SCALE as int) * (SCALE as int),
        SCALE as int,
        (SCALE as int) + rs,
    );
}

fn rsi_value(g: i64, l: i64) -> (r: i64)
    requires
        0 <= g <= 2 * VAL_LIMIT,
        0 <= l <= 2 * VAL_LIMIT,
    ensures
        r == rsi_from_avgs(g as int, l as int),
        0 <= r <= 100 * SCALE,
{
    let denom_l: i64 = if l < 1 {
        1
    } else {
        l
    };
    proof {
        assert(0 <= g as int * SCALE as int <= 2 * VAL_LIMIT as int * SCALE as int)
            by (nonlinear_arith)
            requires
                0 <= g as int <= 2 * VAL_LIMIT as int,
        ;
        vstd::arithmetic::div_mod::lemma_div_pos_is_pos(g as int * SCALE as int, denom_l as int);
    }
    let rs: i128 = (g as i128) * (SCALE as i128) / (denom_l as i128);
    proof {
        assert(rs <= 2 * VAL_LIMIT as int * SCALE as int) by {
            assert(g as int * SCALE as int <= 2 * VAL_LIMIT as int * SCALE as int
                * denom_l as int) by (nonlinear_arith)
                requires
                    0 <= g as int * SCALE as int <= 2 * VAL_LIMIT as int * SCALE as int,
                    denom_l as int >= 1,
            ;
            vstd::arithmetic::div_mod::lemma_div_is_ordered(
                g as int * SCALE as int,
                2 * VAL_LIMIT as int * SCALE as int * denom_l as int,
                denom_l as int,
            );
            assert(denom_l as int * (2 * VAL_LIMIT as int * SCALE as int) == 2 * VAL_LIMIT as int
                * SCALE as int * denom_l as int) by (nonlinear_arith);
            vstd::arithmetic::div_mod::lemma_div_multiples_vanish(
                2 * VAL_LIMIT as int * SCALE as int,
                denom_l as int,
            );
        }
        vstd::arithmetic::div_mod::lemma_div_pos_is_pos(
            100 * SCALE as int * SCALE as int,
            SCALE as int + rs,
        );
        vstd::arithmetic::div_mod::lemma_div_is_ordered_by_denominator(
            100 * SCALE as int * SCALE as int,
            SCALE as int,
            SCALE as int + rs,
        );
    }
    let q: i128 = 100 * (SCALE as i128) * (SCALE as i128) / ((SCALE as i128) + rs);
    (100 * (SCALE as i128) - q) as i64
}

/// Relative-strength index over a fixed-point series, by Wilder smoothing:
/// undefined (`None`) while the lookback window is warming up, then
/// `100 - 100 / (1 + rs)` scaled by `SCALE`, where `rs` is the ratio of the
/// smoothed average gain to the smoothed average loss.
pub fn rsi_series(closes: &[i64], period: usize) -> (out: Vec<Option<i64>>)
    requires
        bounded_i64(closes@, VAL_LIMIT as int),
        period <= 1_000_000_000,
    ensures
        out.len() == closes.len(),
        forall|i: int|
            0 <= i < closes@.len() ==> #[trigger] out@[i] == (if closes@.len() > eff_span(
                period as int,
            ) && i >= eff_span(period as int) {
                Some(rsi_at(closes@, eff_span(period as int), i) as i64)
            } else {
                None::<i64>
            }),
        forall|i: int|
            0 <= i < closes@.len() ==> (#[trigger] out@[i] matches Some(r) ==> 0 <= r <= 100
                * SCALE),
{
    let n = closes.len();
    let p: usize = if period < 1 {
        1
    } else {
        period
    };
    let mut out: Vec<Option<i64>> = Vec::new();
    if n == 0 {
        return out;
    }
    if n <= p {
        let mut i: usize = 0;
        while i < n
            invariant
                0 <= i <= n,
                out.len() == i,
                forall|j: int| 0 <= j < i ==> #[trigger] out@[j] == None::<i64>,
            decreases n - i,
        {
            out.push(None);
            i = i + 1;
        }
        return out;
    }
    let ghost c = closes@;
    let ghost pp = p as int;
    let mut sg: i128 = 0;
    let mut sl: i128 = 0;
    let mut k: usize = 1;
    while k <= p
        invariant
            1 <= k <= p + 1,
            p < n == closes@.len(),
            p >= 1,
            p <= 1_000_000_000,
            bounded_i64(closes@, VAL_LIMIT as int),
            sg == sum_gains(closes@, k - 1),
            sl == sum_losses(closes@, k - 1),
            0 <= sg <= (k - 1) * (2 * VAL_LIMIT as int),
            0 <= sl <= (k - 1) * (2 * VAL_LIMIT as int),
        decreases p + 1 - k,
    {
        let d: i64 = closes[k] - closes[k - 1];
        proof {
            vstd::arithmetic::mul::lemma_mul_inequality(
                k as int - 1,
                1_000_000_000int,
                2 * VAL_LIMIT as int,
            );
        }
        if d > 0 {
            sg = sg + (d as i128);
        } else {
            sl = sl + ((-d) as i128);
        }
        proof {
            assert((k - 1) * (2 * VAL_LIMIT as int) + 2 * VAL_LIMIT as int == k as int * (2
                * VAL_LIMIT as int)) by (nonlinear_arith);
        }
        k = k + 1;
    }
    proof {
        lemma_sums_bounded(closes@, pp, VAL_LIMIT as int);
        crate::lemma_div_trunc_bound(sum_gains(c, pp), pp, 2 * VAL_LIMIT as int);
        crate::lemma_div_trunc_bound(sum_losses(c, pp), pp, 2 * VAL_LIMIT as int);
        vstd::arithmetic::div_mod::lemma_div_pos_is_pos(sum_gains(c, pp), pp);
        vstd::arithmetic::div_mod::lemma_div_pos_is_pos(sum_losses(c, pp), pp);
    }
    let mut ag: i64 = (sg / (p as i128)) as i64;
    let mut al: i64 = (sl / (p as i128)) as i64;
    let mut i: usize = 0;
    while i < p
        invariant
            0 <= i <= p < n == closes@.len(),
            out.len() == i,
            forall|j: int| 0 <= j < i ==> #[trigger] out@[j] == None::<i64>,
        decreases p - i,
    {
        out.push(None);
        i = i + 1;
    }
    out.push(Some(rsi_value(ag, al)));
    let mut i: usize = p + 1;
    while i < n
        invariant
            p + 1 <= i <= n == closes@.len(),
            p >= 1,
            p <= 1_000_000_000,
            bounded_i64(closes@, VAL_LIMIT as int),
            out.len() == i,
            ag == avg_gain_at(closes@, p as int, i - 1),
            al == avg_loss_at(closes@, p as int, i - 1),
            0 <= ag <= 2 * VAL_LIMIT,
            0 <= al <= 2 * VAL_LIMIT,
            forall|j: int| 0 <= j < p ==> #[trigger] out@[j] == None::<i64>,
            forall|j: int|
                p <= j < i ==> #[trigger] out@[j] == Some(
                    rsi_at(closes@, p as int, j) as i64,
                ),
            forall|j: int|
                0 <= j < i ==> (#[trigger] out@[j] matches Some(r) ==> 0 <= r <= 100 * SCALE),
        decreases n - i,
    {
        let d: i64 = closes[i] - closes[i - 1];
        let g: i64 = if d > 0 {
            d
        } else {
            0
        };
        let l: i64 = if d > 0 {
            0
        } else {
            -d
        };
        proof {
            assert(0 <= ag as int * (p as int - 1) + g as int <= p as int * (2
                * VAL_LIMIT as int)) by (nonlinear_arith)
                requires
                    0 <= ag as int <= 2 * VAL_LIMIT as int,
                    0 <= g as int <= 2 * VAL_LIMIT as int,
                    p as int >= 1,
            ;
            assert(0 <= al as int * (p as int - 1) + l as int <= p as int * (2
                * VAL_LIMIT as int)) by (nonlinear_arith)
                requires
                    0 <= al as int <= 2 * VAL_LIMIT as int,
                    0 <= l as int <= 2 * VAL_LIMIT as int,
                    p as int >= 1,
            ;
            crate::lemma_div_trunc_bound(
                ag as int * (p as int - 1) + g as int,
                p as int,
                2 * VAL_LIMIT as int,
            );
            crate::lemma_div_trunc_bound(
                al as int * (p as int - 1) + l as int,
                p as int,
                2 * VAL_LIMIT as int,
            );
            vstd::arithmetic::div_mod::lemma_div_pos_is_pos(
                ag as int * (p as int - 1) + g as int,
                p as int,
            );
            vstd::arithmetic::div_mod::lemma_div_pos_is_pos(
                al as int * (p as int - 1) + l as int,
                p as int,
            );
            assert(0 <= ag as int * (p as int - 1) <= p as int * (2 * VAL_LIMIT as int))
                by (nonlinear_arith)
                requires
                    0 <= ag as int <= 2 * VAL_LIMIT as int,
                    p as int >= 1,
            ;
            assert(0 <= al as int * (p as int - 1) <= p as int * (2 * VAL_LIMIT as int))
                by (nonlinear_arith)
                requires
                    0 <= al as int <= 2 * VAL_LIMIT as int,
                    p as int >= 1,
            ;
            vstd::arithmetic::mul::lemma_mul_inequality(
                p as int,
                1_000_000_000int,
                2 * VAL_LIMIT as int,
            );
        }
        ag = (((ag as i128) * ((p - 1) as i128) + (g as i128)) / (p as i128)) as i64;
        al = (((al as i128) * ((p - 1) as i128) + (l as i128)) / (p as i128)) as i64;
        out.push(Some(rsi_value(ag, al)));
        i = i + 1;
    }
    out
}

/// First differences: the output starts with 0 and continues with
/// `series[i] - series[i - 1]`.
pub fn diff(series: &[i64]) -> (out: Vec<i64>)
    requires
        bounded_i64(series@, VAL_LIMIT as int),
    ensures
        out.len() == series.len(),
        series.len() > 0 ==> out@[0] == 0,
        forall|i: int|
            1 <= i < series.len() ==> #[trigger] out@[i] == series@[i] - series@[i - 1],
{
    let mut out: Vec<i64> = Vec::new();
    if series.len() == 0 {
        return out;
    }
    out.push(0);
    let mut i: usize = 1;
    while i < series.len()
        invariant
            1 <= i <= series.len(),
            out.len() == i,
            bounded_i64(series@, VAL_LIMIT as int),
            out@[0] == 0,
            forall|j: int| 1 <= j < i ==> #[trigger] out@[j] == series@[j] - series@[j - 1],
        decreases series.len() - i,
    {
        out.push(series[i] - series[i - 1]);
        i = i + 1;
    }
    out
}

} // verus!

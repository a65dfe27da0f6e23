//! The feature extractor: aligned close/volume series become four-component
//! fixed-point feature rows (MACD-histogram slope, EMA spread ratio, RSI
//! zone, volume ratio).  Rows whose RSI is still warming up are dropped, so
//! the output is exactly the input length minus the RSI lookback.

use vstd::prelude::*;

use crate::math::ema::{
    clamp, clamp_spec, diff, eff_span, ema_at, ema_series, lemma_avgs_bounded,
    lemma_ema_at_bounded, lemma_rsi_bounds, rsi_at, rsi_series,
};
use crate::{abs_int, bounded_i64, div_trunc, max_int, sat_i64, SCALE, VAL_LIMIT};

verus! {

/// Largest magnitude the extractor admits for a close or volume value; it
/// leaves room for the MACD chain, whose intermediate series grow to four
/// times the input bound.
pub const INPUT_LIMIT: i64 = 250_000_000_000_000_000;

/// The MACD line: fast EMA minus slow EMA, per index.
pub open spec fn macd_line_seq(c: Seq<i64>, fast: int, slow: int) -> Seq<i64> {
    Seq::new(c.len(), |i: int| (ema_at(c, fast, i) - ema_at(c, slow, i)) as i64)
}

/// The MACD histogram at `i`: MACD line minus its signal smoothing.
pub open spec fn hist_at(c: Seq<i64>, fast: int, slow: int, sig: int, i: int) -> int {
    ema_at(c, fast, i) - ema_at(c, slow, i) - ema_at(macd_line_seq(c, fast, slow), sig, i)
}

/// First difference of the MACD histogram (zero at the first index).
pub open spec fn slope_at(c: Seq<i64>, fast: int, slow: int, sig: int, i: int) -> int {
    if i <= 0 {
        0
    } else {
        hist_at(c, fast, slow, sig, i) - hist_at(c, fast, slow, sig, i - 1)
    }
}

/// Relative spread of the fast EMA over the slow EMA at `i`, zero when the
/// slow EMA vanishes, saturated into the fixed-point range.
pub open spec fn spread_at(c: Seq<i64>, fastp: int, slowp: int, i: int) -> int {
    let s = ema_at(c, slowp, i);
    if s == 0 {
        0
    } else {
        sat_i64(div_trunc((ema_at(c, fastp, i) - s) * (SCALE as int), s))
    }
}

/// RSI mapped into the symmetric zone `[-1, 1]`: `(rsi - 50) / 50`, clamped.
pub open spec fn zone_of_rsi(r: int) -> int {
    clamp_spec(div_trunc(r - 50 * (SCALE as int), 50), -(SCALE as int), SCALE as int)
}

/// Volume over the magnitude of its moving average (floored at one tick),
/// saturated into the fixed-point range.
pub open spec fn ratio_at(v: Seq<i64>, volp: int, i: int) -> int {
    sat_i64(
        div_trunc(v[i] as int * (SCALE as int), max_int(abs_int(ema_at(v, volp, i)), 1)),
    )
}

/// The four components of the feature row at input index `i`.
pub open spec fn feature_row_ok(
    x: FeatureExtractor,
    c: Seq<i64>,
    v: Seq<i64>,
    i: int,
    row: [i64; 4],
) -> bool {
    &&& row[0] == slope_at(
        c,
        eff_span(x.macd_fast as int),
        eff_span(x.macd_slow as int),
        eff_span(x.macd_signal as int),
        i,
    )
    &&& row[1] == spread_at(
        c,
        eff_span(x.fast_ema_periods as int),
        eff_span(x.slow_ema_periods as int),
        i,
    )
    &&& row[2] == zone_of_rsi(rsi_at(c, eff_span(x.rsi_period as int), i))
    &&& row[3] == ratio_at(v, eff_span(x.volume_avg_period as int), i)
}

/// The same row, carried as a plain four-element vector.
pub open spec fn feature_vec_ok(
    x: FeatureExtractor,
    c: Seq<i64>,
    v: Seq<i64>,
    i: int,
    row: Seq<i64>,
) -> bool {
    &&& row.len() == 4
    &&& row[0] == slope_at(
        c,
        eff_span(x.macd_fast as int),
        eff_span(x.macd_slow as int),
        eff_span(x.macd_signal as int),
        i,
    )
    &&& row[1] == spread_at(
        c,
        eff_span(x.fast_ema_periods as int),
        eff_span(x.slow_ema_periods as int),
        i,
    )
    &&& row[2] == zone_of_rsi(rsi_at(c, eff_span(x.rsi_period as int), i))
    &&& row[3] == ratio_at(v, eff_span(x.volume_avg_period as int), i)
}

/// Indicator periods of the extractor.
pub struct FeatureExtractor {
    pub fast_ema_periods: usize,
    pub slow_ema_periods: usize,
    pub macd_fast: usize,
    pub macd_slow: usize,
    pub macd_signal: usize,
    pub rsi_period: usize,
    pub volume_avg_period: usize,
}

impl FeatureExtractor {
    /// Every period stays small enough for the fixed-point smoothing
    /// arithmetic.
    pub open spec fn wf(self) -> bool {
        &&& self.fast_ema_periods <= 1_000_000_000
        &&& self.slow_ema_periods <= 1_000_000_000
        &&& self.macd_fast <= 1_000_000_000
        &&& self.macd_slow <= 1_000_000_000
        &&& self.macd_signal <= 1_000_000_000
        &&& self.rsi_period <= 1_000_000_000
        &&& self.volume_avg_period <= 1_000_000_000
    }

    pub fn new(
        fast_ema_periods: usize,
        slow_ema_periods: usize,
        macd_fast: usize,
        macd_slow: usize,
        macd_signal: usize,
        rsi_period: usize,
        volume_avg_period: usize,
    ) -> (x: Self)
        requires
            fast_ema_periods <= 1_000_000_000,
            slow_ema_periods <= 1_000_000_000,
            macd_fast <= 1_000_000_000,
            macd_slow <= 1_000_000_000,
            macd_signal <= 1_000_000_000,
            rsi_period <= 1_000_000_000,
            volume_avg_period <= 1_000_000_000,
        ensures
            x.wf(),
            x.fast_ema_periods == fast_ema_periods,
            x.slow_ema_periods == slow_ema_periods,
            x.macd_fast == macd_fast,
            x.macd_slow == macd_slow,
            x.macd_signal == macd_signal,
            x.rsi_period == rsi_period,
            x.volume_avg_period == volume_avg_period,
    {
        FeatureExtractor {
            fast_ema_periods,
            slow_ema_periods,
            macd_fast,
            macd_slow,
            macd_signal,
            rsi_period,
            volume_avg_period,
        }
    }
}

impl Default for FeatureExtractor {
    /// The default indicator periods: EMAs 9/21, MACD 12/26/9, RSI 14,
    /// volume average 20.
    fn default() -> (x: Self)
        ensures
            x.wf(),
            x.fast_ema_periods == 9,
            x.slow_ema_periods == 21,
            x.macd_fast == 12,
            x.macd_slow == 26,
            x.macd_signal == 9,
            x.rsi_period == 14,
            x.volume_avg_period == 20,
    {
        FeatureExtractor::new(9, 21, 12, 26, 9, 14, 20)
    }
}

fn spread_ratio(fast: i64, slow: i64) -> (r: i64)
    requires
        -VAL_LIMIT <= fast <= VAL_LIMIT,
        -VAL_LIMIT <= slow <= VAL_LIMIT,
    ensures
        slow == 0 ==> r == 0,
        slow != 0 ==> r == sat_i64(div_trunc((fast - slow) * (SCALE as int), slow as int)),
{
    if slow == 0 {
        return 0;
    }
    proof {
        assert(-(2 * VAL_LIMIT as int * SCALE as int) <= (fast - slow) * (SCALE as int) <= 2
            * VAL_LIMIT as int * SCALE as int) by (nonlinear_arith)
            requires
                -(2 * VAL_LIMIT as int) <= fast - slow <= 2 * VAL_LIMIT as int,
        ;
    }
    let num: i128 = ((fast as i128) - (slow as i128)) * (SCALE as i128);
    let den: i128 = if slow < 0 {
        -(slow as i128)
    } else {
        slow as i128
    };
    let mag: i128 = (if num < 0 {
        -num
    } else {
        num
    }) / den;
    let q: i128 = if (num < 0) == (slow < 0) {
        mag
    } else {
        -mag
    };
    proof {
        vstd::arithmetic::div_mod::lemma_div_pos_is_pos(
            abs_int((fast - slow) * (SCALE as int)),
            abs_int(slow as int),
        );
        assert(q == div_trunc((fast - slow) * (SCALE as int), slow as int));
    }
    if q > (i64::MAX as i128) {
        i64::MAX
    } else if q < (i64::MIN as i128) {
        i64::MIN
    } else {
        q as i64
    }
}

fn volume_ratio_val(vol: i64, avg: i64) -> (r: i64)
    requires
        -VAL_LIMIT <= vol <= VAL_LIMIT,
        -VAL_LIMIT <= avg <= VAL_LIMIT,
    ensures
        r == sat_i64(div_trunc(vol as int * (SCALE as int), max_int(abs_int(avg as int), 1))),
{
    let a: i64 = if avg < 0 {
        -avg
    } else {
        avg
    };
    let den: i64 = if a < 1 {
        1
    } else {
        a
    };
    proof {
        assert(-(VAL_LIMIT as int * SCALE as int) <= vol as int * (SCALE as int) <= VAL_LIMIT as int
            * SCALE as int) by (nonlinear_arith)
            requires
                -(VAL_LIMIT as int) <= vol as int <= VAL_LIMIT as int,
        ;
    }
    let num: i128 = (vol as i128) * (SCALE as i128);
    let mag: i128 = (if num < 0 {
        -num
    } else {
        num
    }) / (den as i128);
    let q: i128 = if num < 0 {
        -mag
    } else {
        mag
    };
    proof {
        vstd::arithmetic::div_mod::lemma_div_pos_is_pos(
            abs_int(vol as int * (SCALE as int)),
            den as int,
        );
        assert(q == div_trunc(vol as int * (SCALE as int), den as int));
    }
    if q > (i64::MAX as i128) {
        i64::MAX
    } else if q < (i64::MIN as i128) {
        i64::MIN
    } else {
        q as i64
    }
}

fn zone_from_rsi(r: i64) -> (z: i64)
    requires
        0 <= r <= 100 * SCALE,
    ensures
        z == zone_of_rsi(r as int),
        -SCALE <= z <= SCALE,
{
    let d: i64 = r - 50 * SCALE;
    let q: i64 = d / 50;
    clamp(q, -SCALE, SCALE)
}

impl FeatureExtractor {
    /// Materialize the feature rows of aligned close/volume series.  Series
    /// of different lengths are an error; fewer than two points yield no
    /// rows; otherwise one row per index from the end of the RSI warm-up on,
    /// so exactly `rsi_period` leading indices are dropped.
    #[verifier::loop_isolation(false)]
    pub fn extract_rows(&self, closes: &[i64], volumes: &[i64]) -> (r: Result<
        Vec<[i64; 4]>,
        &'static str,
    >)
        requires
            self.wf(),
            bounded_i64(closes@, INPUT_LIMIT as int),
            bounded_i64(volumes@, INPUT_LIMIT as int),
        ensures
            match r {
                Err(m) => closes@.len() != volumes@.len() && m@
                    == "closes and volumes must be same length"@,
                Ok(rows) => {
                    let n = closes@.len();
                    let p = eff_span(self.rsi_period as int);
                    &&& n == volumes@.len()
                    &&& rows@.len() == (if n < 2 || n <= p {
                        0int
                    } else {
                        n - p
                    })
                    &&& forall|k: int|
                        0 <= k < rows@.len() ==> feature_row_ok(
                            *self,
                            closes@,
                            volumes@,
                            k + p,
                            #[trigger] rows@[k],
                        )
                },
            },
    {
        if closes.len() != volumes.len() {
            return Err("closes and volumes must be same length");
        }
        if closes.len() < 2 {
            return Ok(Vec::new());
        }
        let n = closes.len();
        let fast_ema = ema_series(closes, self.fast_ema_periods);
        let slow_ema = ema_series(closes, self.slow_ema_periods);
        let macd_fast_ema = ema_series(closes, self.macd_fast);
        let macd_slow_ema = ema_series(closes, self.macd_slow);
        let ghost fp = eff_span(self.macd_fast as int);
        let ghost sp = eff_span(self.macd_slow as int);
        let mut macd_line: Vec<i64> = Vec::new();
        let mut i: usize = 0;
        while i < n
            invariant
                0 <= i <= n,
                macd_line.len() == i,
                forall|j: int|
                    0 <= j < i ==> #[trigger] macd_line@[j] == ema_at(closes@, fp, j) - ema_at(
                        closes@,
                        sp,
                        j,
                    ),
                bounded_i64(macd_line@, 2 * INPUT_LIMIT as int),
            decreases n - i,
        {
            proof {
                lemma_ema_at_bounded(closes@, fp, i as int, INPUT_LIMIT as int);
                lemma_ema_at_bounded(closes@, sp, i as int, INPUT_LIMIT as int);
            }
            macd_line.push(macd_fast_ema[i] - macd_slow_ema[i]);
            i = i + 1;
        }
        proof {
            assert(macd_line@ =~= macd_line_seq(closes@, fp, sp));
        }
        let macd_sig = ema_series(macd_line.as_slice(), self.macd_signal);
        let ghost gp = eff_span(self.macd_signal as int);
        let mut macd_hist: Vec<i64> = Vec::new();
        let mut i: usize = 0;
        while i < n
            invariant
                0 <= i <= n,
                macd_hist.len() == i,
                forall|j: int|
                    0 <= j < i ==> #[trigger] macd_hist@[j] == hist_at(closes@, fp, sp, gp, j),
                bounded_i64(macd_hist@, 4 * INPUT_LIMIT as int),
            decreases n - i,
        {
            proof {
                lemma_ema_at_bounded(macd_line@, gp, i as int, 2 * INPUT_LIMIT as int);
            }
            macd_hist.push(macd_line[i] - macd_sig[i]);
            i = i + 1;
        }
        let macd_hist_slope = diff(macd_hist.as_slice());
        let rsi_raw = rsi_series(closes, self.rsi_period);
        let vol_avg = ema_series(volumes, self.volume_avg_period);
        let ghost p = eff_span(self.rsi_period as int);
        let ghost vp = eff_span(self.volume_avg_period as int);
        let ghost fep = eff_span(self.fast_ema_periods as int);
        let ghost sep = eff_span(self.slow_ema_periods as int);
        let mut out: Vec<[i64; 4]> = Vec::new();
        let mut i: usize = 0;
        while i < n
            invariant
                0 <= i <= n,
                out@.len() == (if i as int <= p {
                    0int
                } else {
                    i - p
                }),
                forall|k: int|
                    0 <= k < out@.len() ==> feature_row_ok(
                        *self,
                        closes@,
                        volumes@,
                        k + p,
                        #[trigger] out@[k],
                    ),
            decreases n - i,
        {
            match rsi_raw[i] {
                Some(rv) => {
                    proof {
                        lemma_avgs_bounded(closes@, p, i as int, INPUT_LIMIT as int);
                        lemma_rsi_bounds(
                            crate::math::ema::avg_gain_at(closes@, p, i as int),
                            crate::math::ema::avg_loss_at(closes@, p, i as int),
                        );
                        lemma_ema_at_bounded(closes@, fep, i as int, INPUT_LIMIT as int);
                        lemma_ema_at_bounded(closes@, sep, i as int, INPUT_LIMIT as int);
                        lemma_ema_at_bounded(volumes@, vp, i as int, INPUT_LIMIT as int);
                    }
                    let z = zone_from_rsi(rv);
                    let spr = spread_ratio(fast_ema[i], slow_ema[i]);
                    let vr = volume_ratio_val(volumes[i], vol_avg[i]);
                    let sl = macd_hist_slope[i];
                    out.push([sl, spr, z, vr]);
                },
                None => {},
            }
            i = i + 1;
        }
        Ok(out)
    }

    /// The feature rows as plain four-element vectors, for consumers that
    /// work with untyped rows.
    #[verifier::loop_isolation(false)]
    pub fn extract(&self, closes: &[i64], volumes: &[i64]) -> (r: Result<
        Vec<Vec<i64>>,
        &'static str,
    >)
        requires
            self.wf(),
            bounded_i64(closes@, INPUT_LIMIT as int),
            bounded_i64(volumes@, INPUT_LIMIT as int),
        ensures
            match r {
                Err(m) => closes@.len() != volumes@.len() && m@
                    == "closes and volumes must be same length"@,
                Ok(rows) => {
                    let n = closes@.len();
                    let p = eff_span(self.rsi_period as int);
                    &&& n == volumes@.len()
                    &&& rows@.len() == (if n < 2 || n <= p {
                        0int
                    } else {
                        n - p
                    })
                    &&& forall|k: int|
                        0 <= k < rows@.len() ==> feature_vec_ok(
                            *self,
                            closes@,
                            volumes@,
                            k + p,
                            (#[trigger] rows@[k])@,
                        )
                },
            },
    {
        let rows = match self.extract_rows(closes, volumes) {
            Ok(v) => v,
            Err(m) => {
                return Err(m);
            },
        };
        let mut out: Vec<Vec<i64>> = Vec::new();
        let ghost p = eff_span(self.rsi_period as int);
        let mut k: usize = 0;
        while k < rows.len()
            invariant
                0 <= k <= rows.len(),
                out.len() == k,
                forall|j: int|
                    0 <= j < k ==> feature_vec_ok(
                        *self,
                        closes@,
                        volumes@,
                        j + p,
                        (#[trigger] out@[j])@,
                    ),
            decreases rows.len() - k,
        {
            let row = rows[k];
            let mut v: Vec<i64> = Vec::new();
            v.push(row[0]);
            v.push(row[1]);
            v.push(row[2]);
            v.push(row[3]);
            out.push(v);
            k = k + 1;
        }
        Ok(out)
    }
}

} // verus!

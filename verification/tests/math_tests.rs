use doge_hmm::math::baum_welch::normalize_probs;
use doge_hmm::math::ema::{clamp, diff, ema_series, rsi_series};
use doge_hmm::SCALE;

#[test]
fn clamp_bounds_values() {
    assert_eq!(clamp(5, 0, 3), 3);
    assert_eq!(clamp(-1, 0, 3), 0);
    assert_eq!(clamp(2, 0, 3), 2);
}

#[test]
fn ema_starts_at_the_first_element() {
    let out = ema_series(&[1000, 2000], 3);
    assert_eq!(out, vec![1000, 1500]);
    // A span of one tracks the series exactly.
    let out = ema_series(&[1000, 2000, 500], 1);
    assert_eq!(out, vec![1000, 2000, 500]);
    // A zero span is floored to one.
    let out = ema_series(&[1000, 2000], 0);
    assert_eq!(out, vec![1000, 2000]);
    assert_eq!(ema_series(&[], 9), Vec::<i64>::new());
}

#[test]
fn diff_starts_at_zero() {
    assert_eq!(diff(&[5, 7, 4]), vec![0, 2, -3]);
    assert_eq!(diff(&[]), Vec::<i64>::new());
}

#[test]
fn normalize_shares_out_the_scale() {
    let out = normalize_probs([2_000_000_000, 1_000_000_000, 1_000_000_000]);
    assert_eq!(out, [500_000_000, 250_000_000, 250_000_000]);
}

#[test]
fn normalize_clamps_negatives_and_falls_back_ranging() {
    // Negative mass is treated as zero.
    let out = normalize_probs([-1_000_000_000, 1_000_000_000, 1_000_000_000]);
    assert_eq!(out, [0, 500_000_000, 500_000_000]);
    // All mass gone: the ranging-biased default.
    assert_eq!(normalize_probs([-5, -1, 0]), [0, SCALE, 0]);
}

#[test]
fn normalize_total_is_exact() {
    // The last share absorbs the division remainder.
    let out = normalize_probs([1, 1, 1]);
    assert_eq!(out, [333_333_333, 333_333_333, 333_333_334]);
    assert_eq!(out[0] + out[1] + out[2], SCALE);
}

#[test]
fn rsi_is_undefined_through_the_lookback() {
    // Steady gains with period 1: rs = 10 ticks of gain over a floored loss.
    let out = rsi_series(&[10, 20, 30], 1);
    assert_eq!(out.len(), 3);
    assert_eq!(out[0], None);
    let expected = 100 * SCALE - 100 * SCALE / 11;
    assert_eq!(out[1], Some(expected));
    assert_eq!(out[2], Some(expected));
}

#[test]
fn rsi_of_a_flat_series_is_zero() {
    let out = rsi_series(&[1_000_000_000; 20], 14);
    for i in 0..14 {
        assert_eq!(out[i], None);
    }
    for i in 14..20 {
        assert_eq!(out[i], Some(0));
    }
}

#[test]
fn rsi_of_a_short_series_is_all_undefined() {
    let out = rsi_series(&[10, 20, 30], 14);
    assert_eq!(out, vec![None, None, None]);
}

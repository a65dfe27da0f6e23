use doge_hmm::features::FeatureExtractor;
use doge_hmm::SCALE;

fn default_extractor() -> FeatureExtractor {
    FeatureExtractor::new(9, 21, 12, 26, 9, 14, 20)
}

#[test]
fn mismatched_series_are_an_error() {
    let x = default_extractor();
    let r = x.extract_rows(&[1_000_000_000], &[]);
    assert_eq!(r.unwrap_err(), "closes and volumes must be same length");
}

#[test]
fn fewer_than_two_points_yield_no_rows() {
    let x = default_extractor();
    assert_eq!(x.extract_rows(&[], &[]).unwrap().len(), 0);
    assert_eq!(
        x.extract_rows(&[1_000_000_000], &[2_000_000_000]).unwrap().len(),
        0
    );
}

#[test]
fn warm_up_rows_are_dropped_exactly() {
    let x = default_extractor();
    // 20 aligned points with an RSI period of 14: exactly 6 rows survive.
    let closes = vec![1_000_000_000i64; 20];
    let volumes = vec![5_000_000_000i64; 20];
    let rows = x.extract_rows(&closes, &volumes).unwrap();
    assert_eq!(rows.len(), 6);
    // A series no longer than the lookback yields nothing.
    let rows = x
        .extract_rows(&vec![1_000_000_000; 14], &vec![5_000_000_000; 14])
        .unwrap();
    assert_eq!(rows.len(), 0);
}

#[test]
fn flat_series_produce_the_degenerate_row() {
    let x = default_extractor();
    let closes = vec![1_000_000_000i64; 20];
    let volumes = vec![5_000_000_000i64; 20];
    let rows = x.extract_rows(&closes, &volumes).unwrap();
    for row in rows.iter() {
        // No MACD movement, no spread, RSI zone pinned at -1, volume on its
        // average.
        assert_eq!(*row, [0, 0, -SCALE, SCALE]);
    }
}

#[test]
fn extract_truncates_rows_to_plain_vectors() {
    let x = default_extractor();
    let closes = vec![1_000_000_000i64; 20];
    let volumes = vec![5_000_000_000i64; 20];
    let rows = x.extract(&closes, &volumes).unwrap();
    assert_eq!(rows.len(), 6);
    for row in rows.iter() {
        assert_eq!(*row, vec![0, 0, -SCALE, SCALE]);
    }
}

#[test]
fn spread_guard_handles_a_vanishing_slow_ema() {
    // All-zero closes: the slow EMA is zero, so the spread is defined as 0.
    let x = FeatureExtractor::new(2, 3, 2, 3, 2, 1, 2);
    let closes = vec![0i64; 4];
    let volumes = vec![1_000_000_000i64; 4];
    let rows = x.extract_rows(&closes, &volumes).unwrap();
    assert_eq!(rows.len(), 3);
    for row in rows.iter() {
        assert_eq!(row[1], 0);
    }
}

#[test]
fn default_periods_match_the_indicator_conventions() {
    let x: FeatureExtractor = Default::default();
    assert_eq!(x.fast_ema_periods, 9);
    assert_eq!(x.slow_ema_periods, 21);
    assert_eq!(x.macd_fast, 12);
    assert_eq!(x.macd_slow, 26);
    assert_eq!(x.macd_signal, 9);
    assert_eq!(x.rsi_period, 14);
    assert_eq!(x.volume_avg_period, 20);
}

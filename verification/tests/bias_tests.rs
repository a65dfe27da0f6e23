use doge_hmm::regime::RegimeState;
use doge_hmm::{compute_blended_idle_target, compute_grid_bias, SCALE};

#[test]
fn blended_target_mixes_trend_and_bias() {
    // Even blend of a full trend score and no bias, sensitivity 10.
    let r = compute_blended_idle_target(
        SCALE,
        0,
        SCALE / 2,
        100 * SCALE,
        10 * SCALE,
        0,
        200 * SCALE,
    );
    assert_eq!(r, 95 * SCALE);
}

#[test]
fn blended_target_clamps_blend_factor_and_result() {
    // A blend factor above one is clamped to one: the bias drops out.
    let r = compute_blended_idle_target(SCALE, -SCALE, 3 * SCALE, 100 * SCALE, SCALE, 0, 200 * SCALE);
    assert_eq!(r, 99 * SCALE);
    // The result is clamped into [floor, ceiling].
    let r = compute_blended_idle_target(SCALE, SCALE, SCALE / 2, 0, 100 * SCALE, -SCALE, SCALE);
    assert_eq!(r, -SCALE);
}

fn state_with(confidence: i64, bias_signal: i64) -> RegimeState {
    RegimeState::new(1, None, confidence, bias_signal, 0, 0)
}

#[test]
fn low_confidence_keeps_the_grid_symmetric() {
    let st = state_with(100_000_000, 500_000_000);
    let g = compute_grid_bias(&st, 150_000_000);
    assert_eq!(g.mode, "symmetric");
    assert_eq!(g.entry_spacing_mult_a, SCALE);
    assert_eq!(g.entry_spacing_mult_b, SCALE);
    assert!(g.size_skew_override.is_none());
}

#[test]
fn positive_bias_widens_the_long_side() {
    let st = state_with(500_000_000, 500_000_000);
    let g = compute_grid_bias(&st, 150_000_000);
    assert_eq!(g.mode, "long_bias");
    assert_eq!(g.entry_spacing_mult_a, SCALE + 250_000_000);
    assert_eq!(g.entry_spacing_mult_b, SCALE - 150_000_000);
    assert_eq!(g.size_skew_override, Some(150_000_000));
}

#[test]
fn negative_bias_mirrors_the_directives() {
    let st = state_with(500_000_000, -SCALE);
    let g = compute_grid_bias(&st, 150_000_000);
    assert_eq!(g.mode, "short_bias");
    // 1 - 0.3 = 0.7 stays above the 0.6 floor; the skew caps at 0.30.
    assert_eq!(g.entry_spacing_mult_a, 700_000_000);
    assert_eq!(g.entry_spacing_mult_b, SCALE + 500_000_000);
    assert_eq!(g.size_skew_override, Some(-300_000_000));
}

#[test]
fn zero_bias_above_threshold_is_short_side_neutral() {
    let st = state_with(500_000_000, 0);
    let g = compute_grid_bias(&st, 150_000_000);
    assert_eq!(g.mode, "short_bias");
    assert_eq!(g.entry_spacing_mult_a, SCALE);
    assert_eq!(g.entry_spacing_mult_b, SCALE);
    assert_eq!(g.size_skew_override, Some(0));
}

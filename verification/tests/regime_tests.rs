use doge_hmm::hmm::GaussianHmm;
use doge_hmm::regime::{
    confidence_modifier_for_depth, confidence_modifier_for_source, quality_tier_for_depth,
    HmmConfig, Regime, RegimeDetector, RegimeState, TertiaryTransition,
};
use doge_hmm::SCALE;

#[test]
fn transition_records_start_untransitioned() {
    let t: TertiaryTransition = Default::default();
    assert_eq!(t.from_regime, 1);
    assert_eq!(t.to_regime, 1);
    assert_eq!(t.confirmation_count, 0);
    assert!(!t.confirmed);
    assert_eq!(t.changed_at, 0);
    assert_eq!(t.transition_age_sec, 0);
}

#[test]
fn transition_records_can_be_injected_and_read_back() {
    let mut d = RegimeDetector::new(None);
    let t = TertiaryTransition::new(0, 2, 3, true, 700, 90);
    d.set_tertiary_transition(t);
    assert_eq!(d.get_tertiary_transition(), t);
}

#[test]
fn states_default_to_the_ranging_distribution() {
    let st = RegimeState::new(1, None, 0, 0, 0, 0);
    assert_eq!(st.probabilities, vec![0, SCALE, 0]);
    let cloned = st.clone();
    assert_eq!(cloned.regime, st.regime);
    assert_eq!(cloned.probabilities, st.probabilities);
}

#[test]
fn quality_tiers_match_depth_ranges() {
    assert_eq!(quality_tier_for_depth(-10), "shallow");
    assert_eq!(quality_tier_for_depth(0), "shallow");
    assert_eq!(quality_tier_for_depth(999), "shallow");
    assert_eq!(quality_tier_for_depth(1000), "baseline");
    assert_eq!(quality_tier_for_depth(2499), "baseline");
    assert_eq!(quality_tier_for_depth(2500), "deep");
    assert_eq!(quality_tier_for_depth(3999), "deep");
    assert_eq!(quality_tier_for_depth(4000), "full");
}

#[test]
fn confidence_modifiers_match_tiers() {
    assert!((confidence_modifier_for_depth(500) as f64 / SCALE as f64 - 0.70).abs() < 1e-9);
    assert!((confidence_modifier_for_depth(1500) as f64 / SCALE as f64 - 0.85).abs() < 1e-9);
    assert!((confidence_modifier_for_depth(3000) as f64 / SCALE as f64 - 0.95).abs() < 1e-9);
    assert!((confidence_modifier_for_depth(5000) as f64 / SCALE as f64 - 1.00).abs() < 1e-9);
}

#[test]
fn confidence_modifier_for_source_uses_requested_pipeline() {
    let primary = 900;
    let secondary = 2800;
    let tertiary = 4200;
    assert!(
        (confidence_modifier_for_source("primary", primary, secondary, tertiary) as f64
            / SCALE as f64
            - 0.70)
            .abs()
            < 1e-9
    );
    assert!(
        (confidence_modifier_for_source("secondary", primary, secondary, tertiary) as f64
            / SCALE as f64
            - 0.95)
            .abs()
            < 1e-9
    );
    assert!(
        (confidence_modifier_for_source("tertiary", primary, secondary, tertiary) as f64
            / SCALE as f64
            - 1.00)
            .abs()
            < 1e-9
    );
    assert!(
        (confidence_modifier_for_source("consensus", primary, secondary, tertiary) as f64
            / SCALE as f64
            - 0.70)
            .abs()
            < 1e-9
    );
}

#[test]
fn source_names_are_trimmed_and_case_insensitive() {
    assert_eq!(
        confidence_modifier_for_source("  SECONDARY ", 900, 2800, 4200),
        confidence_modifier_for_source("secondary", 900, 2800, 4200)
    );
    // Unicode whitespace is trimmed as str::trim would.
    assert_eq!(
        confidence_modifier_for_source("\u{a0}\u{2009}tertiary\u{3000}", 900, 2800, 4200),
        confidence_modifier_for_source("tertiary", 900, 2800, 4200)
    );
    assert_eq!(
        confidence_modifier_for_source("15M", 900, 2800, 4200),
        confidence_modifier_for_source("15m", 900, 2800, 4200)
    );
    assert_eq!(
        confidence_modifier_for_source("1h", 900, 2800, 4200),
        confidence_modifier_for_source("tertiary", 900, 2800, 4200)
    );
    // An unknown name falls back to the primary pipeline.
    assert_eq!(
        confidence_modifier_for_source("hourly", 900, 2800, 4200),
        confidence_modifier_for_depth(900)
    );
}

#[test]
fn tertiary_transition_tracks_changes_and_confirmation() {
    let mut detector = RegimeDetector::new(None);
    detector.advance_tertiary_transition(Regime::RANGING.to_i32(), 100);
    assert_eq!(detector.tertiary_transition.from_regime, Regime::RANGING.to_i32());
    assert_eq!(detector.tertiary_transition.to_regime, Regime::RANGING.to_i32());
    assert_eq!(detector.tertiary_transition.confirmation_count, 1);
    assert!(!detector.tertiary_transition.confirmed);

    detector.advance_tertiary_transition(Regime::BULLISH.to_i32(), 160);
    assert_eq!(detector.tertiary_transition.from_regime, Regime::RANGING.to_i32());
    assert_eq!(detector.tertiary_transition.to_regime, Regime::BULLISH.to_i32());
    assert_eq!(detector.tertiary_transition.confirmation_count, 1);
    assert!(!detector.tertiary_transition.confirmed);

    detector.advance_tertiary_transition(Regime::BULLISH.to_i32(), 220);
    assert_eq!(detector.tertiary_transition.confirmation_count, 2);
    assert!(detector.tertiary_transition.confirmed);
    assert!(detector.tertiary_transition.transition_age_sec >= 60);
}

#[test]
fn out_of_range_regimes_fall_back_to_ranging() {
    let mut detector = RegimeDetector::new(None);
    detector.advance_tertiary_transition(7, 100);
    assert_eq!(detector.tertiary_transition.to_regime, 1);
}

#[test]
fn regime_labels_are_ordered() {
    assert_eq!(Regime::BEARISH.to_i32(), 0);
    assert_eq!(Regime::RANGING.to_i32(), 1);
    assert_eq!(Regime::BULLISH.to_i32(), 2);
}

#[test]
fn config_sanitization_applies_floors_and_clamps() {
    let c = HmmConfig {
        n_states: 7,
        n_iter: 3,
        inference_window: 1,
        confidence_threshold: -5,
        retrain_interval_sec: 0,
        min_train_samples: 2,
        bias_gain: -1,
        blend_with_trend: 2 * SCALE,
    }
    .sanitized();
    assert_eq!(c.n_states, 3);
    assert_eq!(c.n_iter, 10);
    assert_eq!(c.inference_window, 5);
    assert_eq!(c.confidence_threshold, 0);
    assert_eq!(c.retrain_interval_sec, 1);
    assert_eq!(c.min_train_samples, 5);
    assert_eq!(c.bias_gain, 0);
    assert_eq!(c.blend_with_trend, SCALE);
}

fn trained_detector(now: i64) -> RegimeDetector {
    let mut d = RegimeDetector::new(None);
    let mut m = GaussianHmm::new();
    // Means along the spread feature already ascending, so the label map is
    // the identity permutation.
    m.install_params(
        [SCALE, 0, 0],
        [[SCALE, 0, 0], [0, SCALE, 0], [0, 0, SCALE]],
        [[0, 1, 0, 0], [0, 5, 0, 0], [0, 9, 0, 0]],
        [[SCALE; 4]; 3],
        600,
    );
    d.complete_train(m, now);
    d
}

#[test]
fn update_derives_regime_confidence_and_bias() {
    let mut d = trained_detector(1000);
    assert!(d._trained);
    assert_eq!(d.training_depth, 600);
    assert_eq!(d.state.observation_count, 600);
    assert_eq!(d._last_train_ts, 1000);

    let st = d.update(&vec![0, 0, SCALE], 5, 1100);
    assert_eq!(st.regime, Regime::BULLISH.to_i32());
    assert_eq!(st.probabilities, vec![0, 0, SCALE]);
    assert_eq!(st.confidence, SCALE);
    assert_eq!(st.bias_signal, SCALE);
    assert_eq!(st.last_update_ts, 1100);
    assert_eq!(st.observation_count, 5);
    assert_eq!(d.tertiary_transition.from_regime, 2);
    assert_eq!(d.tertiary_transition.to_regime, 2);
    assert_eq!(d.tertiary_transition.confirmation_count, 1);
    assert!(!d.tertiary_transition.confirmed);

    let st2 = d.update(&vec![0, 0, SCALE], 5, 1200);
    assert_eq!(st2.regime, 2);
    assert_eq!(d.tertiary_transition.confirmation_count, 2);
    assert!(!d.tertiary_transition.confirmed);
    assert_eq!(d.tertiary_transition.transition_age_sec, 100);
}

#[test]
fn update_from_emissions_runs_the_model_posterior() {
    let mut d = trained_detector(1000);
    // Emissions favouring the sticky first state keep all mass there.
    let st = d.update_from_emissions(&vec![[SCALE, 1, 1], [SCALE, 1, 1]], 2, 1100);
    assert_eq!(st.regime, Regime::BEARISH.to_i32());
    assert_eq!(st.probabilities, vec![SCALE, 0, 0]);
    assert_eq!(st.confidence, SCALE);
    assert_eq!(st.bias_signal, -SCALE);
    assert_eq!(st.observation_count, 2);
}

#[test]
fn update_zeroes_bias_below_the_confidence_threshold() {
    let mut d = trained_detector(1000);
    // A near-uniform posterior: margin far below the default 0.15 threshold.
    let third = SCALE / 3;
    let st = d.update(&vec![third, third, third], 5, 1100);
    assert_eq!(st.bias_signal, 0);
    assert!(st.confidence < 150_000_000);
}

#[test]
fn update_is_a_no_op_while_untrained() {
    let mut d = RegimeDetector::new(None);
    let st = d.update(&vec![0, 0, SCALE], 5, 1100);
    assert_eq!(st.regime, 1);
    assert_eq!(st.probabilities, vec![0, SCALE, 0]);
    assert_eq!(st.last_update_ts, 0);
    // The transition machine does not advance on a no-op.
    assert_eq!(d.tertiary_transition.changed_at, 0);
    assert_eq!(d.tertiary_transition.confirmation_count, 0);
}

#[test]
fn begin_train_declines_short_histories() {
    let mut d = RegimeDetector::new(None);
    assert!(!d.begin_train(499));
    assert!(!d._trained);
    assert_eq!(d.training_depth, 499);
    assert!(d.begin_train(500));
    assert_eq!(d.training_depth, 500);
}

#[test]
fn needs_retrain_follows_the_interval() {
    let mut d = RegimeDetector::new(None);
    assert!(d.needs_retrain(0));
    d = trained_detector(1000);
    // Retraining is due only once the interval is strictly exceeded.
    assert!(!d.needs_retrain(1000 + 86400));
    assert!(d.needs_retrain(1000 + 86401));
}

#[test]
fn snapshot_restore_round_trip_preserves_bookkeeping() {
    let mut d = RegimeDetector::new(None);
    d.begin_train(700);
    d.advance_tertiary_transition(2, 500);
    d.advance_tertiary_transition(0, 560);

    let s = d.snapshot();
    assert_eq!(s.quality_tier, Some("shallow".to_string()));
    assert_eq!(s.confidence_modifier, Some(700_000_000));

    let mut f = RegimeDetector::new(None);
    f.restore_snapshot(&s);
    assert_eq!(f.state.regime, d.state.regime);
    assert_eq!(f.state.probabilities, d.state.probabilities);
    assert_eq!(f.state.confidence, d.state.confidence);
    assert_eq!(f.state.bias_signal, d.state.bias_signal);
    assert_eq!(f.state.last_update_ts, d.state.last_update_ts);
    assert_eq!(f.state.observation_count, d.state.observation_count);
    assert_eq!(f.tertiary_transition, d.tertiary_transition);
    assert_eq!(f.training_depth, 700);
    assert_eq!(f._trained, d._trained);
    assert_eq!(f._last_train_ts, d._last_train_ts);
    // Model parameters never travel through a snapshot.
    assert!(f.model.is_none());
}

#[test]
fn trained_flag_travels_but_the_model_does_not() {
    let d = trained_detector(1000);
    let s = d.snapshot();
    let mut f = RegimeDetector::new(None);
    f.restore_snapshot(&s);
    assert!(f._trained);
    assert!(f.model.is_none());
}

#[test]
fn inference_tail_takes_the_trailing_window() {
    let cfg = HmmConfig {
        n_states: 3,
        n_iter: 100,
        inference_window: 5,
        confidence_threshold: 150_000_000,
        retrain_interval_sec: 86400,
        min_train_samples: 500,
        bias_gain: SCALE,
        blend_with_trend: SCALE / 2,
    };
    let d = RegimeDetector::new(Some(cfg));
    let rows: Vec<[i64; 4]> = (0..8).map(|i| [i, 0, 0, 0]).collect();
    let tail = d.inference_tail(&rows);
    assert_eq!(tail.len(), 5);
    assert_eq!(tail[0][0], 3);
    assert_eq!(tail[4][0], 7);

    let short: Vec<[i64; 4]> = (0..3).map(|i| [i, 0, 0, 0]).collect();
    assert_eq!(d.inference_tail(&short).len(), 3);
}

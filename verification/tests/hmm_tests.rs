use doge_hmm::hmm::{initialize_from_rows, GaussianHmm, MIN_VAR};
use doge_hmm::SCALE;

#[test]
fn a_fresh_model_is_untrained_with_default_parameters() {
    let m = GaussianHmm::new();
    assert!(!m.is_trained());
    assert_eq!(m.training_depth(), 0);
    assert_eq!(m.initial_probs(), [333_333_333, 333_333_333, 333_333_334]);
    let t = m.transition_matrix();
    for i in 0..3 {
        for j in 0..3 {
            assert_eq!(t[i][j], if i == j { 800_000_000 } else { 100_000_000 });
        }
    }
    assert_eq!(m.means(), [[0; 4]; 3]);
    assert_eq!(m.covars(), [[SCALE; 4]; 3]);
}

#[test]
fn installed_parameters_are_renormalized_and_floored() {
    let mut m = GaussianHmm::new();
    m.install_params(
        [2_000_000_000, 1_000_000_000, 1_000_000_000],
        [[SCALE, 0, 0], [0, SCALE, 0], [0, 0, SCALE]],
        [[0, 1, 0, 0], [0, 5, 0, 0], [0, 9, 0, 0]],
        [[0; 4]; 3],
        120,
    );
    assert!(m.is_trained());
    assert_eq!(m.training_depth(), 120);
    assert_eq!(m.initial_probs(), [500_000_000, 250_000_000, 250_000_000]);
    assert_eq!(m.transition_matrix()[0], [SCALE, 0, 0]);
    // Vanishing variances are floored.
    assert_eq!(m.covars(), [[MIN_VAR; 4]; 3]);
}

#[test]
fn model_rows_always_sum_to_scale_exactly() {
    let mut m = GaussianHmm::new();
    m.install_params(
        [7, 13, 17],
        [[1, 2, 3], [9, 9, 9], [0, 0, 1]],
        [[0; 4]; 3],
        [[SCALE; 4]; 3],
        50,
    );
    let ip = m.initial_probs();
    assert_eq!(ip[0] + ip[1] + ip[2], SCALE);
    for row in m.transition_matrix().iter() {
        assert_eq!(row[0] + row[1] + row[2], SCALE);
        assert!(row.iter().all(|v| *v >= 0));
    }
}

#[test]
fn untrained_prediction_is_the_ranging_default() {
    let m = GaussianHmm::new();
    let p = m.predict_last_proba(&vec![[SCALE, SCALE, SCALE]]);
    assert_eq!(p, vec![0, SCALE, 0]);
    // An empty window gives the same default even when trained.
    let mut t = GaussianHmm::new();
    t.install_params(
        [SCALE, 0, 0],
        [[SCALE, 0, 0], [0, SCALE, 0], [0, 0, SCALE]],
        [[0; 4]; 3],
        [[SCALE; 4]; 3],
        40,
    );
    assert_eq!(t.predict_last_proba(&Vec::new()), vec![0, SCALE, 0]);
}

#[test]
fn prediction_is_a_normalized_posterior() {
    let mut m = GaussianHmm::new();
    m.install_params(
        [SCALE, 0, 0],
        [[SCALE, 0, 0], [0, SCALE, 0], [0, 0, SCALE]],
        [[0; 4]; 3],
        [[SCALE; 4]; 3],
        40,
    );
    // A sticky first state: all posterior mass stays there.
    let p = m.predict_last_proba(&vec![[SCALE, 1, 1], [SCALE, 1, 1]]);
    assert_eq!(p, vec![SCALE, 0, 0]);
    let sum: i64 = p.iter().sum();
    assert_eq!(sum, SCALE);
    assert!(p.iter().all(|v| *v >= 0));
}

#[test]
fn forward_pass_retains_row_scales() {
    let mut m = GaussianHmm::new();
    m.install_params(
        [SCALE, 0, 0],
        [[SCALE, 0, 0], [0, SCALE, 0], [0, 0, SCALE]],
        [[0; 4]; 3],
        [[SCALE; 4]; 3],
        40,
    );
    let (alpha, scales) = m.forward_scaled(&vec![[SCALE, 1, 1], [SCALE, 1, 1]]);
    assert_eq!(alpha.len(), 2);
    assert_eq!(scales.len(), 2);
    // First step: initial mass 1.0 against a unit emission.
    assert_eq!(alpha[0], [SCALE, 0, 0]);
    assert_eq!(scales[0], SCALE);
    for row in alpha.iter() {
        assert_eq!(row[0] + row[1] + row[2], SCALE);
    }
}

#[test]
fn label_map_sorts_states_by_their_spread_mean() {
    let mut m = GaussianHmm::new();
    assert!(m.label_map_by_feature(1).is_none());
    m.install_params(
        [SCALE, 0, 0],
        [[SCALE, 0, 0], [0, SCALE, 0], [0, 0, SCALE]],
        [[0, 5, 0, 0], [0, 1, 0, 0], [0, 9, 0, 0]],
        [[SCALE; 4]; 3],
        40,
    );
    let map = m.label_map_by_feature(1).unwrap();
    // State 1 has the lowest spread mean, state 2 the highest.
    assert_eq!(map, vec![1, 0, 2]);
    assert!(m.label_map_by_feature(4).is_none());
}

#[test]
fn label_map_is_a_permutation_under_ties() {
    let mut m = GaussianHmm::new();
    m.install_params(
        [SCALE, 0, 0],
        [[SCALE, 0, 0], [0, SCALE, 0], [0, 0, SCALE]],
        [[0; 4]; 3],
        [[SCALE; 4]; 3],
        40,
    );
    // All means equal: the stable sort keeps the identity.
    let map = m.label_map_by_feature(1).unwrap();
    let mut sorted = map.clone();
    sorted.sort();
    assert_eq!(sorted, vec![0, 1, 2]);
    assert_eq!(map, vec![0, 1, 2]);
}

#[test]
fn initialization_seeds_means_at_spread_quantiles() {
    // Three rows whose spread feature orders them 1 < 0 < 2.
    let rows = vec![
        [0, 5 * SCALE, 0, 0],
        [0, 1 * SCALE, 0, 0],
        [0, 9 * SCALE, 0, 0],
    ];
    let (means, covars) = initialize_from_rows(&rows);
    // Quantile positions 0, 1, 2 of the sorted order pick the rows with the
    // lowest, middle and highest spread.
    assert_eq!(means[0], [0, 1 * SCALE, 0, 0]);
    assert_eq!(means[1], [0, 5 * SCALE, 0, 0]);
    assert_eq!(means[2], [0, 9 * SCALE, 0, 0]);
    // Global variance of the spread feature: mean 5, deviations 0 and +-4,
    // so (2 * 16 * SCALE) / 3 in fixed point.
    let expected = 32 * SCALE / 3;
    for s in 0..3 {
        assert_eq!(covars[s][1], expected);
        // Flat features fall to the variance floor.
        assert_eq!(covars[s][0], MIN_VAR);
        assert_eq!(covars[s][2], MIN_VAR);
        assert_eq!(covars[s][3], MIN_VAR);
    }
}

#[test]
fn initialization_is_stable_under_spread_ties() {
    let rows = vec![[1, 0, 0, 0], [2, 0, 0, 0], [3, 0, 0, 0]];
    let (means, _) = initialize_from_rows(&rows);
    // All spreads equal: the stable order keeps the original row order.
    assert_eq!(means[0], [1, 0, 0, 0]);
    assert_eq!(means[1], [2, 0, 0, 0]);
    assert_eq!(means[2], [3, 0, 0, 0]);
}

#[test]
fn em_step_reestimates_parameters_from_posteriors() {
    let mut m = GaussianHmm::new();
    m.install_params(
        [SCALE, 0, 0],
        [[SCALE, 0, 0], [0, SCALE, 0], [0, 0, SCALE]],
        [[0; 4]; 3],
        [[SCALE; 4]; 3],
        40,
    );
    let rows = vec![[7, 8, 9, 10]];
    let emissions = vec![[SCALE, 1, 1]];
    m.em_step(&rows, &emissions);
    // All posterior mass sits on the first state, so its mean moves to the
    // single observation and its variance collapses to the floor.
    assert_eq!(m.initial_probs(), [SCALE, 0, 0]);
    assert_eq!(m.means()[0], [7, 8, 9, 10]);
    assert_eq!(m.covars()[0], [MIN_VAR; 4]);
    // The other states received no mass and keep their parameters.
    assert_eq!(m.means()[1], [0; 4]);
    assert_eq!(m.covars()[1], [SCALE; 4]);
    // A single step pair does not exist, so transitions are unchanged.
    assert_eq!(m.transition_matrix()[0], [SCALE, 0, 0]);
    assert!(m.is_trained());
    assert_eq!(m.training_depth(), 40);
}

#[test]
fn em_step_keeps_probability_rows_normalized() {
    let mut m = GaussianHmm::new();
    m.install_params(
        [400_000_000, 300_000_000, 300_000_000],
        [
            [500_000_000, 300_000_000, 200_000_000],
            [200_000_000, 500_000_000, 300_000_000],
            [300_000_000, 200_000_000, 500_000_000],
        ],
        [[0, SCALE, 0, 0], [0, 5 * SCALE, 0, 0], [0, 9 * SCALE, 0, 0]],
        [[SCALE; 4]; 3],
        40,
    );
    let rows = vec![
        [0, SCALE, 0, 0],
        [0, 5 * SCALE, 0, 0],
        [0, 9 * SCALE, 0, 0],
        [0, SCALE, 0, 0],
    ];
    let emissions = vec![
        [SCALE, 1, 1],
        [1, SCALE, 1],
        [1, 1, SCALE],
        [SCALE, 1, 1],
    ];
    m.em_step(&rows, &emissions);
    let ip = m.initial_probs();
    assert_eq!(ip[0] + ip[1] + ip[2], SCALE);
    for row in m.transition_matrix().iter() {
        assert_eq!(row[0] + row[1] + row[2], SCALE);
        assert!(row.iter().all(|v| *v >= 0));
    }
    for s in 0..3 {
        for f in 0..4 {
            assert!(m.covars()[s][f] >= MIN_VAR);
        }
    }
}

//! The regime model: a three-state, four-feature diagonal-covariance Gaussian
//! hidden Markov model, held in fixed-point.
//!
//! The model's emission densities are transcendental and are computed by the
//! host in floating point; everything that consumes them is integer
//! arithmetic and verified here — the scaled forward and backward passes,
//! the state posteriors and transition expectations, the Baum-Welch
//! parameter updates ([`GaussianHmm::em_step`]), the training seeds
//! ([`initialize_from_rows`]), the posterior normalization and the semantic
//! label map.  Fitted parameters enter through
//! [`GaussianHmm::install_params`], which re-normalizes every probability
//! vector and floors the variances, so a well-formed model is an invariant of
//! the type.

use vstd::prelude::*;

use crate::math::baum_welch::pos_part;
use crate::{max_int, min_int, SCALE, VAL_LIMIT};

verus! {

/// Variance floor: 1e-6 in fixed-point ticks.
pub const MIN_VAR: i64 = 1_000;

/// A fixed-point probability triple: entries in `[0, SCALE]` totalling
/// exactly `SCALE`.
pub open spec fn prob3(p: [i64; 3]) -> bool {
    &&& 0 <= p[0] <= SCALE
    &&& 0 <= p[1] <= SCALE
    &&& 0 <= p[2] <= SCALE
    &&& p[0] + p[1] + p[2] == SCALE
}

/// An emission row: three nonnegative likelihoods, each at most `SCALE`
/// (the per-step maximum is scaled to one before the row is handed over).
pub open spec fn emission_row_ok(e: [i64; 3]) -> bool {
    &&& 0 <= e[0] <= SCALE
    &&& 0 <= e[1] <= SCALE
    &&& 0 <= e[2] <= SCALE
}

/// Entry `k` of the model-side normalization of a mass triple: negative
/// masses count as zero; a vanishing total falls back to the uniform
/// distribution; otherwise the first two entries take their truncated share
/// of `SCALE` and the last absorbs the division remainder, so the entries
/// always total `SCALE` exactly.
pub open spec fn uniform_norm3_at(u0: int, u1: int, u2: int, k: int) -> int {
    let a = pos_part(u0);
    let b = pos_part(u1);
    let c = pos_part(u2);
    let s = a + b + c;
    if s <= 0 {
        if k == 2 {
            SCALE - 2 * (SCALE as int / 3)
        } else {
            SCALE as int / 3
        }
    } else {
        if k == 0 {
            a * SCALE / s
        } else if k == 1 {
            b * SCALE / s
        } else {
            SCALE - a * SCALE / s - b * SCALE / s
        }
    }
}

pub struct GaussianHmm {
    pub trained: bool,
    pub training_depth: usize,
    pub initial_probs: [i64; 3],
    pub transition_matrix: [[i64; 3]; 3],
    pub means: [[i64; 4]; 3],
    pub covars: [[i64; 4]; 3],
}

impl GaussianHmm {
    /// The model parameters always form probability vectors, and every
    /// variance respects the floor.
    pub open spec fn wf(self) -> bool {
        &&& prob3(self.initial_probs)
        &&& prob3(self.transition_matrix[0])
        &&& prob3(self.transition_matrix[1])
        &&& prob3(self.transition_matrix[2])
        &&& forall|i: int, j: int|
            0 <= i < 3 && 0 <= j < 4 ==> #[trigger] self.covars[i][j] >= MIN_VAR
    }

    /// An untrained model: the uniform initial distribution (the last entry
    /// carrying the rounding tick), the diagonal-dominant default transition
    /// matrix (0.80 self, 0.10 to each other state), zero means and unit
    /// variances.
    pub fn new() -> (m: Self)
        ensures
            m.wf(),
            !m.trained,
            m.training_depth == 0,
            m.initial_probs[0] == 333_333_333,
            m.initial_probs[1] == 333_333_333,
            m.initial_probs[2] == 333_333_334,
            forall|i: int, j: int|
                0 <= i < 3 && 0 <= j < 3 ==> #[trigger] m.transition_matrix[i][j] == (
                if i == j {
                    800_000_000int
                } else {
                    100_000_000int
                }),
            forall|i: int, j: int|
                0 <= i < 3 && 0 <= j < 4 ==> #[trigger] m.means[i][j] == 0,
            forall|i: int, j: int|
                0 <= i < 3 && 0 <= j < 4 ==> #[trigger] m.covars[i][j] == SCALE,
    {
        GaussianHmm {
            trained: false,
            training_depth: 0,
            initial_probs: [333_333_333, 333_333_333, 333_333_334],
            transition_matrix: [
                [800_000_000, 100_000_000, 100_000_000],
                [100_000_000, 800_000_000, 100_000_000],
                [100_000_000, 100_000_000, 800_000_000],
            ],
            means: [[0, 0, 0, 0], [0, 0, 0, 0], [0, 0, 0, 0]],
            covars: [
                [SCALE, SCALE, SCALE, SCALE],
                [SCALE, SCALE, SCALE, SCALE],
                [SCALE, SCALE, SCALE, SCALE],
            ],
        }
    }

    pub fn is_trained(&self) -> (b: bool)
        ensures
            b == self.trained,
    {
        self.trained
    }

    pub fn training_depth(&self) -> (d: usize)
        ensures
            d as int == self.training_depth as int,
    {
        self.training_depth
    }

    pub fn means(&self) -> (m: [[i64; 4]; 3])
        ensures
            m == self.means,
    {
        self.means
    }

    pub fn covars(&self) -> (c: [[i64; 4]; 3])
        ensures
            c == self.covars,
    {
        self.covars
    }

    pub fn initial_probs(&self) -> (p: [i64; 3])
        ensures
            p == self.initial_probs,
    {
        self.initial_probs
    }

    pub fn transition_matrix(&self) -> (t: [[i64; 3]; 3])
        ensures
            t == self.transition_matrix,
    {
        self.transition_matrix
    }

    /// Install fitted parameters: each probability vector is re-normalized by
    /// the model rule (clamp negatives, uniform fallback, exact total),
    /// every variance is floored, and the model becomes trained with the
    /// given training depth.
    pub fn install_params(
        &mut self,
        initial: [i64; 3],
        transition: [[i64; 3]; 3],
        means: [[i64; 4]; 3],
        covars: [[i64; 4]; 3],
        depth: usize,
    )
        ensures
            final(self).wf(),
            final(self).trained,
            final(self).training_depth == depth,
            forall|k: int|
                0 <= k < 3 ==> #[trigger] final(self).initial_probs[k] == uniform_norm3_at(
                    initial[0] as int,
                    initial[1] as int,
                    initial[2] as int,
                    k,
                ),
            forall|i: int, k: int|
                0 <= i < 3 && 0 <= k < 3 ==> #[trigger] final(self).transition_matrix[i][k]
                    == uniform_norm3_at(
                    transition[i][0] as int,
                    transition[i][1] as int,
                    transition[i][2] as int,
                    k,
                ),
            final(self).means == means,
            forall|i: int, j: int|
                0 <= i < 3 && 0 <= j < 4 ==> #[trigger] final(self).covars[i][j] == max_int(
                    covars[i][j] as int,
                    MIN_VAR as int,
                ),
    {
        let ip = normalize_uniform3(initial[0], initial[1], initial[2]);
        let t0 = normalize_uniform3(transition[0][0], transition[0][1], transition[0][2]);
        let t1 = normalize_uniform3(transition[1][0], transition[1][1], transition[1][2]);
        let t2 = normalize_uniform3(transition[2][0], transition[2][1], transition[2][2]);
        self.trained = true;
        self.training_depth = depth;
        self.initial_probs = ip;
        self.transition_matrix = [t0, t1, t2];
        self.means = means;
        self.covars = [
            [
                floor_var(covars[0][0]),
                floor_var(covars[0][1]),
                floor_var(covars[0][2]),
                floor_var(covars[0][3]),
            ],
            [
                floor_var(covars[1][0]),
                floor_var(covars[1][1]),
                floor_var(covars[1][2]),
                floor_var(covars[1][3]),
            ],
            [
                floor_var(covars[2][0]),
                floor_var(covars[2][1]),
                floor_var(covars[2][2]),
                floor_var(covars[2][3]),
            ],
        ];
    }
}

/// Law of the model invariant: every model this module hands out — fresh or
/// fitted — carries nonnegative initial and transition probabilities, and
/// the initial distribution and every transition row total `SCALE` exactly,
/// i.e. one to within a single tick.
pub proof fn lemma_model_rows_normalized(m: GaussianHmm)
    requires
        m.wf(),
    ensures
        forall|j: int| 0 <= j < 3 ==> 0 <= #[trigger] m.initial_probs[j],
        forall|i: int, j: int|
            0 <= i < 3 && 0 <= j < 3 ==> 0 <= #[trigger] m.transition_matrix[i][j],
        m.initial_probs[0] + m.initial_probs[1] + m.initial_probs[2] == SCALE,
        forall|i: int|
            0 <= i < 3 ==> #[trigger] m.transition_matrix[i][0] + m.transition_matrix[i][1]
                + m.transition_matrix[i][2] == SCALE,
{
    assert forall|i: int, j: int|
        0 <= i < 3 && 0 <= j < 3 implies 0 <= #[trigger] m.transition_matrix[i][j] by {
        assert(prob3(m.transition_matrix[i]));
    }
    assert forall|i: int|
        0 <= i < 3 implies #[trigger] m.transition_matrix[i][0] + m.transition_matrix[i][1]
            + m.transition_matrix[i][2] == SCALE by {
        assert(prob3(m.transition_matrix[i]));
    }
}

/// Unnormalized forward mass of state `j` at step `t`: the initial
/// distribution weighted by the first emission row, then the transition-
/// weighted carry of the previous (normalized) step, weighted by the current
/// emission row.  All products are rescaled back to fixed point.
pub open spec fn fwd_unnorm_at(m: GaussianHmm, e: Seq<[i64; 3]>, t: int, j: int) -> int
    decreases t, 0int,
{
    if t <= 0 {
        m.initial_probs[j] * e[0][j] / (SCALE as int)
    } else {
        (fwd_alpha_at(m, e, t - 1, 0) * m.transition_matrix[0][j] + fwd_alpha_at(m, e, t - 1, 1)
            * m.transition_matrix[1][j] + fwd_alpha_at(m, e, t - 1, 2)
            * m.transition_matrix[2][j]) * e[t][j] / (SCALE as int * SCALE as int)
    }
}

/// Normalized forward probability of state `j` at step `t`.
pub open spec fn fwd_alpha_at(m: GaussianHmm, e: Seq<[i64; 3]>, t: int, j: int) -> int
    decreases t, 1int,
{
    uniform_norm3_at(
        fwd_unnorm_at(m, e, t, 0),
        fwd_unnorm_at(m, e, t, 1),
        fwd_unnorm_at(m, e, t, 2),
        j,
    )
}

/// Scale factor retained at step `t`: the unnormalized row total, floored at
/// one tick.
pub open spec fn fwd_scale_at(m: GaussianHmm, e: Seq<[i64; 3]>, t: int) -> int
    decreases t, 1int,
{
    crate::max_int(
        fwd_unnorm_at(m, e, t, 0) + fwd_unnorm_at(m, e, t, 1) + fwd_unnorm_at(m, e, t, 2),
        1,
    )
}

/// `row` is the normalized forward row of step `t`.
pub open spec fn alpha_row_matches(m: GaussianHmm, e: Seq<[i64; 3]>, t: int, row: [i64; 3]) -> bool {
    &&& row[0] == fwd_alpha_at(m, e, t, 0)
    &&& row[1] == fwd_alpha_at(m, e, t, 1)
    &&& row[2] == fwd_alpha_at(m, e, t, 2)
}

/// Stable ascending order of the indices 0, 1, 2 under the keys `k0`, `k1`,
/// `k2` (ties keep the smaller index first).
pub open spec fn stable_order3(k0: int, k1: int, k2: int) -> (int, int, int) {
    if k0 <= k1 {
        if k1 <= k2 {
            (0int, 1int, 2int)
        } else if k0 <= k2 {
            (0int, 2int, 1int)
        } else {
            (2int, 0int, 1int)
        }
    } else {
        if k0 <= k2 {
            (1int, 0int, 2int)
        } else if k1 <= k2 {
            (1int, 2int, 0int)
        } else {
            (2int, 1int, 0int)
        }
    }
}

fn scaled_mul(a: i64, b: i64) -> (r: i64)
    requires
        0 <= a <= SCALE,
        0 <= b <= SCALE,
    ensures
        r == a as int * b as int / SCALE as int,
        0 <= r <= SCALE,
{
    proof {
        assert(0 <= a as int * b as int <= SCALE as int * SCALE as int) by (nonlinear_arith)
            requires
                0 <= a as int <= SCALE as int,
                0 <= b as int <= SCALE as int,
        ;
        vstd::arithmetic::div_mod::lemma_div_pos_is_pos(a as int * b as int, SCALE as int);
        vstd::arithmetic::div_mod::lemma_div_is_ordered(
            a as int * b as int,
            SCALE as int * SCALE as int,
            SCALE as int,
        );
        vstd::arithmetic::div_mod::lemma_div_multiples_vanish(SCALE as int, SCALE as int);
    }
    ((a as i128) * (b as i128) / (SCALE as i128)) as i64
}

fn fwd_unnorm_step(prev: [i64; 3], tm: &[[i64; 3]; 3], e: [i64; 3], j: usize) -> (u: i64)
    requires
        j < 3,
        prob3(prev),
        prob3(tm[0]),
        prob3(tm[1]),
        prob3(tm[2]),
        emission_row_ok(e),
    ensures
        u == (prev[0] * tm[0][j as int] + prev[1] * tm[1][j as int] + prev[2]
            * tm[2][j as int]) * e[j as int] / (SCALE as int * SCALE as int),
        0 <= u <= SCALE,
{
    proof {
        assert(0 <= prev[0] * tm[0][j as int] <= SCALE as int * SCALE as int) by (nonlinear_arith)
            requires
                0 <= prev[0] <= SCALE as int,
                0 <= tm[0][j as int] <= SCALE as int,
        ;
        assert(0 <= prev[1] * tm[1][j as int] <= SCALE as int * SCALE as int) by (nonlinear_arith)
            requires
                0 <= prev[1] <= SCALE as int,
                0 <= tm[1][j as int] <= SCALE as int,
        ;
        assert(0 <= prev[2] * tm[2][j as int] <= SCALE as int * SCALE as int) by (nonlinear_arith)
            requires
                0 <= prev[2] <= SCALE as int,
                0 <= tm[2][j as int] <= SCALE as int,
        ;
    }
    let acc: i128 = (prev[0] as i128) * (tm[0][j] as i128) + (prev[1] as i128)
        * (tm[1][j] as i128) + (prev[2] as i128) * (tm[2][j] as i128);
    proof {
        assert(0 <= acc <= SCALE as int * SCALE as int) by (nonlinear_arith)
            requires
                acc == prev[0] * tm[0][j as int] + prev[1] * tm[1][j as int] + prev[2]
                    * tm[2][j as int],
                0 <= prev[0],
                0 <= prev[1],
                0 <= prev[2],
                prev[0] + prev[1] + prev[2] <= SCALE,
                0 <= tm[0][j as int] <= SCALE,
                0 <= tm[1][j as int] <= SCALE,
                0 <= tm[2][j as int] <= SCALE,
        ;
        assert(0 <= acc * (e[j as int] as int) <= (SCALE as int * SCALE as int) * (
        SCALE as int)) by (nonlinear_arith)
            requires
                0 <= acc <= SCALE as int * SCALE as int,
                0 <= e[j as int] <= SCALE as int,
        ;
        vstd::arithmetic::div_mod::lemma_div_pos_is_pos(
            acc * (e[j as int] as int),
            SCALE as int * SCALE as int,
        );
        vstd::arithmetic::div_mod::lemma_div_is_ordered(
            acc * (e[j as int] as int),
            (SCALE as int * SCALE as int) * (SCALE as int),
            SCALE as int * SCALE as int,
        );
        vstd::arithmetic::div_mod::lemma_div_multiples_vanish(
            SCALE as int,
            SCALE as int * SCALE as int,
        );
    }
    let u128: i128 = acc * (e[j] as i128) / ((SCALE as i128) * (SCALE as i128));
    u128 as i64
}

fn normalize_alpha(u0: i64, u1: i64, u2: i64) -> (r: ([i64; 3], i64))
    requires
        0 <= u0 <= SCALE,
        0 <= u1 <= SCALE,
        0 <= u2 <= SCALE,
    ensures
        r.0[0] == uniform_norm3_at(u0 as int, u1 as int, u2 as int, 0),
        r.0[1] == uniform_norm3_at(u0 as int, u1 as int, u2 as int, 1),
        r.0[2] == uniform_norm3_at(u0 as int, u1 as int, u2 as int, 2),
        prob3(r.0),
        r.1 == max_int(u0 as int + u1 as int + u2 as int, 1),
        1 <= r.1 <= 3 * SCALE,
{
    let s: i64 = u0 + u1 + u2;
    if s <= 0 {
        ([333_333_333, 333_333_333, 333_333_334], 1)
    } else {
        proof {
            crate::math::baum_welch::lemma_share_pair(
                u0 as int,
                u1 as int,
                u2 as int,
                SCALE as int,
            );
            assert(u0 as int * SCALE as int <= SCALE as int * SCALE as int) by (nonlinear_arith)
                requires
                    0 <= u0 as int <= SCALE as int,
            ;
            assert(u1 as int * SCALE as int <= SCALE as int * SCALE as int) by (nonlinear_arith)
                requires
                    0 <= u1 as int <= SCALE as int,
            ;
        }
        let q0: i64 = ((u0 as i128) * (SCALE as i128) / (s as i128)) as i64;
        let q1: i64 = ((u1 as i128) * (SCALE as i128) / (s as i128)) as i64;
        let q2: i64 = SCALE - q0 - q1;
        ([q0, q1, q2], s)
    }
}

impl GaussianHmm {
    /// Scaled forward pass over a window of emission rows: each step's state
    /// masses are renormalized to total `SCALE` and the raw row total is
    /// retained as that step's scale factor.
    pub fn forward_scaled(&self, emissions: &Vec<[i64; 3]>) -> (res: (Vec<[i64; 3]>, Vec<i64>))
        requires
            self.wf(),
            emissions@.len() >= 1,
            forall|t: int|
                0 <= t < emissions@.len() ==> emission_row_ok(#[trigger] emissions@[t]),
        ensures
            res.0.len() == emissions.len(),
            res.1.len() == emissions.len(),
            forall|t: int| 0 <= t < emissions@.len() ==> prob3(#[trigger] res.0@[t]),
            forall|t: int|
                0 <= t < emissions@.len() ==> alpha_row_matches(
                    *self,
                    emissions@,
                    t,
                    #[trigger] res.0@[t],
                ),
            forall|t: int|
                0 <= t < emissions@.len() ==> #[trigger] res.1@[t] == fwd_scale_at(
                    *self,
                    emissions@,
                    t,
                ),
            forall|t: int| 0 <= t < emissions@.len() ==> 1 <= #[trigger] res.1@[t] <= 3 * SCALE,
    {
        let t_len = emissions.len();
        let mut alpha: Vec<[i64; 3]> = Vec::new();
        let mut scales: Vec<i64> = Vec::new();
        let e0: [i64; 3] = emissions[0];
        let u0 = scaled_mul(self.initial_probs[0], e0[0]);
        let u1 = scaled_mul(self.initial_probs[1], e0[1]);
        let u2 = scaled_mul(self.initial_probs[2], e0[2]);
        let (row0, sc0) = normalize_alpha(u0, u1, u2);
        alpha.push(row0);
        scales.push(sc0);
        let mut t: usize = 1;
        while t < t_len
            invariant
                1 <= t <= t_len,
                t_len == emissions@.len(),
                alpha.len() == t,
                scales.len() == t,
                self.wf(),
                forall|q: int|
                    0 <= q < emissions@.len() ==> emission_row_ok(#[trigger] emissions@[q]),
                forall|q: int| 0 <= q < t ==> prob3(#[trigger] alpha@[q]),
                forall|q: int|
                    0 <= q < t ==> alpha_row_matches(*self, emissions@, q, #[trigger] alpha@[q]),
                forall|q: int|
                    0 <= q < t ==> #[trigger] scales@[q] == fwd_scale_at(*self, emissions@, q),
                forall|q: int| 0 <= q < t ==> 1 <= #[trigger] scales@[q] <= 3 * SCALE,
            decreases t_len - t,
        {
            let prev: [i64; 3] = alpha[t - 1];
            let e: [i64; 3] = emissions[t];
            let v0 = fwd_unnorm_step(prev, &self.transition_matrix, e, 0);
            let v1 = fwd_unnorm_step(prev, &self.transition_matrix, e, 1);
            let v2 = fwd_unnorm_step(prev, &self.transition_matrix, e, 2);
            proof {
                assert(v0 == fwd_unnorm_at(*self, emissions@, t as int, 0));
                assert(v1 == fwd_unnorm_at(*self, emissions@, t as int, 1));
                assert(v2 == fwd_unnorm_at(*self, emissions@, t as int, 2));
            }
            let (row, sc) = normalize_alpha(v0, v1, v2);
            alpha.push(row);
            scales.push(sc);
            t = t + 1;
        }
        (alpha, scales)
    }

    /// Forward-filtered posterior of the final step of a window.  Untrained
    /// models and empty windows fall back to the ranging-biased default
    /// `[0, 1, 0]`; in every case the result is a nonnegative vector
    /// totalling exactly `SCALE`.
    pub fn predict_last_proba(&self, emissions: &Vec<[i64; 3]>) -> (p: Vec<i64>)
        requires
            self.wf(),
            forall|t: int|
                0 <= t < emissions@.len() ==> emission_row_ok(#[trigger] emissions@[t]),
        ensures
            p.len() == 3,
            forall|k: int| 0 <= k < 3 ==> 0 <= #[trigger] p@[k] <= SCALE,
            p@[0] + p@[1] + p@[2] == SCALE,
            (!self.trained || emissions@.len() == 0) ==> (p@[0] == 0 && p@[1] == SCALE && p@[2]
                == 0),
            (self.trained && emissions@.len() > 0) ==> (forall|k: int|
                0 <= k < 3 ==> #[trigger] p@[k] == fwd_alpha_at(
                    *self,
                    emissions@,
                    emissions@.len() - 1,
                    k,
                )),
    {
        if !self.trained || emissions.len() == 0 {
            return self.default_probs();
        }
        let (alpha, _scales) = self.forward_scaled(emissions);
        let last: [i64; 3] = alpha[alpha.len() - 1];
        let mut p: Vec<i64> = Vec::new();
        p.push(last[0]);
        p.push(last[1]);
        p.push(last[2]);
        p
    }

    /// The ranging-biased default posterior of the three-state model.
    fn default_probs(&self) -> (p: Vec<i64>)
        ensures
            p.len() == 3,
            p@[0] == 0,
            p@[1] == SCALE,
            p@[2] == 0,
    {
        let mut p: Vec<i64> = Vec::new();
        p.push(0);
        p.push(SCALE);
        p.push(0);
        p
    }

    /// Label map over a trained model: raw state indices sorted by their
    /// learned mean along `feature_idx` (a stable ascending sort), so the
    /// state with the lowest mean is labelled 0 and the highest 2.  The
    /// result is a permutation of `{0, 1, 2}`; an untrained model or an
    /// out-of-range feature yields nothing.
    pub fn label_map_by_feature(&self, feature_idx: usize) -> (r: Option<Vec<usize>>)
        ensures
            match r {
                Some(v) => {
                    &&& self.trained && feature_idx < 4
                    &&& v.len() == 3
                    &&& v@[0] < 3 && v@[1] < 3 && v@[2] < 3
                    &&& v@[0] != v@[1] && v@[0] != v@[2] && v@[1] != v@[2]
                    &&& ({
                        let o = stable_order3(
                            self.means[0][feature_idx as int] as int,
                            self.means[1][feature_idx as int] as int,
                            self.means[2][feature_idx as int] as int,
                        );
                        v@[o.0] == 0 && v@[o.1] == 1 && v@[o.2] == 2
                    })
                },
                None => !(self.trained && feature_idx < 4),
            },
    {
        if !self.trained || feature_idx >= 4 {
            return None;
        }
        let k0: i64 = self.means[0][feature_idx];
        let k1: i64 = self.means[1][feature_idx];
        let k2: i64 = self.means[2][feature_idx];
        let mut v: Vec<usize> = Vec::new();
        if k0 <= k1 {
            if k1 <= k2 {
                v.push(0);
                v.push(1);
                v.push(2);
            } else if k0 <= k2 {
                v.push(0);
                v.push(2);
                v.push(1);
            } else {
                v.push(1);
                v.push(2);
                v.push(0);
            }
        } else {
            if k0 <= k2 {
                v.push(1);
                v.push(0);
                v.push(2);
            } else if k1 <= k2 {
                v.push(2);
                v.push(0);
                v.push(1);
            } else {
                v.push(2);
                v.push(1);
                v.push(0);
            }
        }
        Some(v)
    }
}

/// Scaled backward mass of state `i` at step `t`: one at the final step,
/// then the transition-weighted carry of the next step's emissions and
/// masses, divided by the forward pass's retained scale factor and capped at
/// `VAL_LIMIT` to stay representable.
pub open spec fn bwd_beta_at(m: GaussianHmm, e: Seq<[i64; 3]>, t: int, i: int) -> int
    decreases e.len() - t,
{
    if t >= e.len() - 1 {
        SCALE as int
    } else {
        min_int(
            (m.transition_matrix[i][0] * e[t + 1][0] * bwd_beta_at(m, e, t + 1, 0)
                + m.transition_matrix[i][1] * e[t + 1][1] * bwd_beta_at(m, e, t + 1, 1)
                + m.transition_matrix[i][2] * e[t + 1][2] * bwd_beta_at(m, e, t + 1, 2)) / (SCALE
                * fwd_scale_at(m, e, t + 1)),
            VAL_LIMIT as int,
        )
    }
}

/// `row` is the scaled backward row of step `t`.
pub open spec fn beta_row_matches(m: GaussianHmm, e: Seq<[i64; 3]>, t: int, row: [i64; 3]) -> bool {
    &&& row[0] == bwd_beta_at(m, e, t, 0)
    &&& row[1] == bwd_beta_at(m, e, t, 1)
    &&& row[2] == bwd_beta_at(m, e, t, 2)
}

fn bwd_step(tm: &[[i64; 3]; 3], e1: [i64; 3], bnext: [i64; 3], sc: i64, i: usize) -> (b: i64)
    requires
        i < 3,
        prob3(tm[0]),
        prob3(tm[1]),
        prob3(tm[2]),
        emission_row_ok(e1),
        0 <= bnext[0] <= VAL_LIMIT,
        0 <= bnext[1] <= VAL_LIMIT,
        0 <= bnext[2] <= VAL_LIMIT,
        1 <= sc <= 3 * SCALE,
    ensures
        b == min_int(
            (tm[i as int][0] * e1[0] * bnext[0] + tm[i as int][1] * e1[1] * bnext[1]
                + tm[i as int][2] * e1[2] * bnext[2]) / (SCALE * sc),
            VAL_LIMIT as int,
        ),
        0 <= b <= VAL_LIMIT,
{
    proof {
        assert(0 <= tm[i as int][0] * e1[0] <= SCALE as int * SCALE as int) by (nonlinear_arith)
            requires
                0 <= tm[i as int][0] <= SCALE as int,
                0 <= e1[0] <= SCALE as int,
        ;
        assert(0 <= tm[i as int][1] * e1[1] <= SCALE as int * SCALE as int) by (nonlinear_arith)
            requires
                0 <= tm[i as int][1] <= SCALE as int,
                0 <= e1[1] <= SCALE as int,
        ;
        assert(0 <= tm[i as int][2] * e1[2] <= SCALE as int * SCALE as int) by (nonlinear_arith)
            requires
                0 <= tm[i as int][2] <= SCALE as int,
                0 <= e1[2] <= SCALE as int,
        ;
        assert(0 <= tm[i as int][0] * e1[0] * bnext[0] <= SCALE as int * SCALE as int * (
        VAL_LIMIT as int)) by (nonlinear_arith)
            requires
                0 <= tm[i as int][0] * e1[0] <= SCALE as int * SCALE as int,
                0 <= bnext[0] <= VAL_LIMIT as int,
        ;
        assert(0 <= tm[i as int][1] * e1[1] * bnext[1] <= SCALE as int * SCALE as int * (
        VAL_LIMIT as int)) by (nonlinear_arith)
            requires
                0 <= tm[i as int][1] * e1[1] <= SCALE as int * SCALE as int,
                0 <= bnext[1] <= VAL_LIMIT as int,
        ;
        assert(0 <= tm[i as int][2] * e1[2] * bnext[2] <= SCALE as int * SCALE as int * (
        VAL_LIMIT as int)) by (nonlinear_arith)
            requires
                0 <= tm[i as int][2] * e1[2] <= SCALE as int * SCALE as int,
                0 <= bnext[2] <= VAL_LIMIT as int,
        ;
        vstd::arithmetic::div_mod::lemma_div_pos_is_pos(
            tm[i as int][0] * e1[0] * bnext[0] + tm[i as int][1] * e1[1] * bnext[1]
                + tm[i as int][2] * e1[2] * bnext[2],
            SCALE as int * sc as int,
        );
    }
    let n0: i128 = (tm[i][0] as i128) * (e1[0] as i128) * (bnext[0] as i128);
    let n1: i128 = (tm[i][1] as i128) * (e1[1] as i128) * (bnext[1] as i128);
    let n2: i128 = (tm[i][2] as i128) * (e1[2] as i128) * (bnext[2] as i128);
    let q: i128 = (n0 + n1 + n2) / ((SCALE as i128) * (sc as i128));
    if q > (VAL_LIMIT as i128) {
        VAL_LIMIT
    } else {
        q as i64
    }
}

impl GaussianHmm {
    /// Scaled backward pass over the window, reusing the forward pass's
    /// retained scale factors.
    #[verifier::loop_isolation(false)]
    pub fn backward_scaled(&self, emissions: &Vec<[i64; 3]>, scales: &Vec<i64>) -> (beta: Vec<
        [i64; 3],
    >)
        requires
            self.wf(),
            emissions@.len() >= 1,
            scales@.len() == emissions@.len(),
            forall|t: int|
                0 <= t < emissions@.len() ==> emission_row_ok(#[trigger] emissions@[t]),
            forall|t: int|
                0 <= t < emissions@.len() ==> #[trigger] scales@[t] == fwd_scale_at(
                    *self,
                    emissions@,
                    t,
                ),
            forall|t: int| 0 <= t < emissions@.len() ==> 1 <= #[trigger] scales@[t] <= 3 * SCALE,
        ensures
            beta.len() == emissions.len(),
            forall|t: int|
                0 <= t < emissions@.len() ==> beta_row_matches(
                    *self,
                    emissions@,
                    t,
                    #[trigger] beta@[t],
                ),
            forall|t: int, i: int|
                0 <= t < emissions@.len() && 0 <= i < 3 ==> 0 <= #[trigger] beta@[t][i]
                    <= VAL_LIMIT,
    {
        let t_len = emissions.len();
        let mut rev: Vec<[i64; 3]> = Vec::new();
        rev.push([SCALE, SCALE, SCALE]);
        let mut k: usize = 1;
        while k < t_len
            invariant
                1 <= k <= t_len,
                rev.len() == k,
                forall|q: int|
                    0 <= q < k ==> beta_row_matches(
                        *self,
                        emissions@,
                        t_len - 1 - q,
                        #[trigger] rev@[q],
                    ),
                forall|q: int, i: int|
                    0 <= q < k && 0 <= i < 3 ==> 0 <= #[trigger] rev@[q][i] <= VAL_LIMIT,
            decreases t_len - k,
        {
            let t = t_len - 1 - k;
            let bnext: [i64; 3] = rev[k - 1];
            let b0 = bwd_step(&self.transition_matrix, emissions[t + 1], bnext, scales[t + 1], 0);
            let b1 = bwd_step(&self.transition_matrix, emissions[t + 1], bnext, scales[t + 1], 1);
            let b2 = bwd_step(&self.transition_matrix, emissions[t + 1], bnext, scales[t + 1], 2);
            rev.push([b0, b1, b2]);
            k = k + 1;
        }
        let mut beta: Vec<[i64; 3]> = Vec::new();
        let mut t: usize = 0;
        while t < t_len
            invariant
                0 <= t <= t_len,
                beta.len() == t,
                rev.len() == t_len,
                forall|q: int|
                    0 <= q < t_len ==> beta_row_matches(
                        *self,
                        emissions@,
                        t_len - 1 - q,
                        #[trigger] rev@[q],
                    ),
                forall|q: int, i: int|
                    0 <= q < t_len && 0 <= i < 3 ==> 0 <= #[trigger] rev@[q][i] <= VAL_LIMIT,
                forall|q: int|
                    0 <= q < t ==> beta_row_matches(*self, emissions@, q, #[trigger] beta@[q]),
                forall|q: int, i: int|
                    0 <= q < t && 0 <= i < 3 ==> 0 <= #[trigger] beta@[q][i] <= VAL_LIMIT,
            decreases t_len - t,
        {
            beta.push(rev[t_len - 1 - t]);
            t = t + 1;
        }
        beta
    }
}

/// State posterior at step `t`: the share of `SCALE` that the product of
/// forward and backward mass gives state `s`, or zero when the whole row's
/// mass vanished.
pub open spec fn gamma_at(m: GaussianHmm, e: Seq<[i64; 3]>, t: int, s: int) -> int {
    let w0 = fwd_alpha_at(m, e, t, 0) * bwd_beta_at(m, e, t, 0);
    let w1 = fwd_alpha_at(m, e, t, 1) * bwd_beta_at(m, e, t, 1);
    let w2 = fwd_alpha_at(m, e, t, 2) * bwd_beta_at(m, e, t, 2);
    let sw = w0 + w1 + w2;
    if sw <= 0 {
        0
    } else {
        (if s == 0 {
            w0
        } else if s == 1 {
            w1
        } else {
            w2
        }) * SCALE / sw
    }
}

/// `row` is the state posterior of step `t`.
pub open spec fn gamma_row_matches(m: GaussianHmm, e: Seq<[i64; 3]>, t: int, row: [i64; 3]) -> bool {
    &&& row[0] == gamma_at(m, e, t, 0)
    &&& row[1] == gamma_at(m, e, t, 1)
    &&& row[2] == gamma_at(m, e, t, 2)
}

/// Joint weight of the state pair `(i, j)` across steps `t, t + 1`, built
/// from forward mass, transition, emission and backward mass, rescaled to
/// fixed point as each factor joins.
pub open spec fn xi_weight_at(m: GaussianHmm, e: Seq<[i64; 3]>, t: int, i: int, j: int) -> int {
    ((fwd_alpha_at(m, e, t, i) * m.transition_matrix[i][j] / (SCALE as int)) * e[t + 1][j] / (
    SCALE as int)) * bwd_beta_at(m, e, t + 1, j)
}

/// Total joint weight of step `t` over all nine state pairs.
pub open spec fn xi_denom_at(m: GaussianHmm, e: Seq<[i64; 3]>, t: int) -> int {
    xi_weight_at(m, e, t, 0, 0) + xi_weight_at(m, e, t, 0, 1) + xi_weight_at(m, e, t, 0, 2)
        + xi_weight_at(m, e, t, 1, 0) + xi_weight_at(m, e, t, 1, 1) + xi_weight_at(m, e, t, 1, 2)
        + xi_weight_at(m, e, t, 2, 0) + xi_weight_at(m, e, t, 2, 1) + xi_weight_at(m, e, t, 2, 2)
}

/// Normalized transition expectation contributed by step `t`; a vanishing
/// total skips the step.
pub open spec fn xi_step_at(m: GaussianHmm, e: Seq<[i64; 3]>, t: int, i: int, j: int) -> int {
    let d = xi_denom_at(m, e, t);
    if d <= 0 {
        0
    } else {
        xi_weight_at(m, e, t, i, j) * SCALE / d
    }
}

/// Transition expectations accumulated over the first `upto` adjacent step
/// pairs.
pub open spec fn xi_sum_at(m: GaussianHmm, e: Seq<[i64; 3]>, upto: int, i: int, j: int) -> int
    decreases upto,
{
    if upto <= 0 {
        0
    } else {
        xi_sum_at(m, e, upto - 1, i, j) + xi_step_at(m, e, upto - 1, i, j)
    }
}

/// Expected occupancy of state `i` over the first `upto` step pairs.
pub open spec fn occupancy_at(m: GaussianHmm, e: Seq<[i64; 3]>, upto: int, i: int) -> int {
    xi_sum_at(m, e, upto, i, 0) + xi_sum_at(m, e, upto, i, 1) + xi_sum_at(m, e, upto, i, 2)
}

impl GaussianHmm {
    /// State posteriors of every step, from pinned forward and backward
    /// rows.
    #[verifier::loop_isolation(false)]
    pub fn compute_gamma(&self, emissions: &Vec<[i64; 3]>, alpha: &Vec<[i64; 3]>, beta: &Vec<
        [i64; 3],
    >) -> (gamma: Vec<[i64; 3]>)
        requires
            alpha@.len() == emissions@.len(),
            beta@.len() == emissions@.len(),
            forall|t: int|
                0 <= t < emissions@.len() ==> alpha_row_matches(
                    *self,
                    emissions@,
                    t,
                    #[trigger] alpha@[t],
                ),
            forall|t: int| 0 <= t < emissions@.len() ==> prob3(#[trigger] alpha@[t]),
            forall|t: int|
                0 <= t < emissions@.len() ==> beta_row_matches(
                    *self,
                    emissions@,
                    t,
                    #[trigger] beta@[t],
                ),
            forall|t: int, i: int|
                0 <= t < emissions@.len() && 0 <= i < 3 ==> 0 <= #[trigger] beta@[t][i]
                    <= VAL_LIMIT,
        ensures
            gamma.len() == emissions.len(),
            forall|t: int|
                0 <= t < emissions@.len() ==> gamma_row_matches(
                    *self,
                    emissions@,
                    t,
                    #[trigger] gamma@[t],
                ),
            forall|t: int, s: int|
                0 <= t < emissions@.len() && 0 <= s < 3 ==> 0 <= #[trigger] gamma@[t][s] <= SCALE,
    {
        let t_len = emissions.len();
        let mut gamma: Vec<[i64; 3]> = Vec::new();
        let mut t: usize = 0;
        while t < t_len
            invariant
                0 <= t <= t_len,
                gamma.len() == t,
                forall|q: int|
                    0 <= q < t ==> gamma_row_matches(
                        *self,
                        emissions@,
                        q,
                        #[trigger] gamma@[q],
                    ),
                forall|q: int, s: int|
                    0 <= q < t && 0 <= s < 3 ==> 0 <= #[trigger] gamma@[q][s] <= SCALE,
            decreases t_len - t,
        {
            let a: [i64; 3] = alpha[t];
            let b: [i64; 3] = beta[t];
            proof {
                assert(0 <= a[0] * b[0] <= SCALE as int * VAL_LIMIT as int) by (nonlinear_arith)
                    requires
                        0 <= a[0] <= SCALE as int,
                        0 <= b[0] <= VAL_LIMIT as int,
                ;
                assert(0 <= a[1] * b[1] <= SCALE as int * VAL_LIMIT as int) by (nonlinear_arith)
                    requires
                        0 <= a[1] <= SCALE as int,
                        0 <= b[1] <= VAL_LIMIT as int,
                ;
                assert(0 <= a[2] * b[2] <= SCALE as int * VAL_LIMIT as int) by (nonlinear_arith)
                    requires
                        0 <= a[2] <= SCALE as int,
                        0 <= b[2] <= VAL_LIMIT as int,
                ;
            }
            let w0: i128 = (a[0] as i128) * (b[0] as i128);
            let w1: i128 = (a[1] as i128) * (b[1] as i128);
            let w2: i128 = (a[2] as i128) * (b[2] as i128);
            let sw: i128 = w0 + w1 + w2;
            if sw <= 0 {
                gamma.push([0, 0, 0]);
            } else {
                proof {
                    crate::lemma_scaled_fraction_bound(w0 as int, SCALE as int, sw as int);
                    crate::lemma_scaled_fraction_bound(w1 as int, SCALE as int, sw as int);
                    crate::lemma_scaled_fraction_bound(w2 as int, SCALE as int, sw as int);
                }
                let g0: i64 = (w0 * (SCALE as i128) / sw) as i64;
                let g1: i64 = (w1 * (SCALE as i128) / sw) as i64;
                let g2: i64 = (w2 * (SCALE as i128) / sw) as i64;
                gamma.push([g0, g1, g2]);
            }
            t = t + 1;
        }
        gamma
    }
}

fn xi_weight_exec(a: i64, tmij: i64, e1j: i64, bj: i64) -> (w: i128)
    requires
        0 <= a <= SCALE,
        0 <= tmij <= SCALE,
        0 <= e1j <= SCALE,
        0 <= bj <= VAL_LIMIT,
    ensures
        w == ((a * tmij / (SCALE as int)) * e1j / (SCALE as int)) * bj,
        0 <= w <= SCALE as int * VAL_LIMIT as int,
{
    proof {
        assert(0 <= a * tmij <= SCALE as int * SCALE as int) by (nonlinear_arith)
            requires
                0 <= a <= SCALE as int,
                0 <= tmij <= SCALE as int,
        ;
        crate::lemma_scaled_fraction_bound(a as int, tmij as int, SCALE as int);
        assert(a * tmij / (SCALE as int) == a * tmij / (SCALE as int));
        vstd::arithmetic::div_mod::lemma_div_pos_is_pos(a * tmij, SCALE as int);
        vstd::arithmetic::div_mod::lemma_div_is_ordered(
            a * tmij,
            SCALE as int * SCALE as int,
            SCALE as int,
        );
        vstd::arithmetic::div_mod::lemma_div_multiples_vanish(SCALE as int, SCALE as int);
    }
    let s1: i128 = (a as i128) * (tmij as i128) / (SCALE as i128);
    proof {
        assert(0 <= s1 * (e1j as int) <= SCALE as int * SCALE as int) by (nonlinear_arith)
            requires
                0 <= s1 <= SCALE as int,
                0 <= e1j <= SCALE as int,
        ;
        vstd::arithmetic::div_mod::lemma_div_pos_is_pos(s1 * (e1j as int), SCALE as int);
        vstd::arithmetic::div_mod::lemma_div_is_ordered(
            s1 * (e1j as int),
            SCALE as int * SCALE as int,
            SCALE as int,
        );
    }
    let s2: i128 = s1 * (e1j as i128) / (SCALE as i128);
    proof {
        assert(0 <= s2 * (bj as int) <= SCALE as int * VAL_LIMIT as int) by (nonlinear_arith)
            requires
                0 <= s2 <= SCALE as int,
                0 <= bj <= VAL_LIMIT as int,
        ;
    }
    s2 * (bj as i128)
}

impl GaussianHmm {
    /// Transition expectations and state occupancies accumulated over every
    /// adjacent step pair of the window.
    #[verifier::loop_isolation(false)]
    pub fn compute_xi_sums(&self, emissions: &Vec<[i64; 3]>, alpha: &Vec<[i64; 3]>, beta: &Vec<
        [i64; 3],
    >) -> (r: ([[i64; 3]; 3], [i64; 3]))
        requires
            self.wf(),
            1 <= emissions@.len() <= 1_000_000_000,
            alpha@.len() == emissions@.len(),
            beta@.len() == emissions@.len(),
            forall|t: int|
                0 <= t < emissions@.len() ==> emission_row_ok(#[trigger] emissions@[t]),
            forall|t: int|
                0 <= t < emissions@.len() ==> alpha_row_matches(
                    *self,
                    emissions@,
                    t,
                    #[trigger] alpha@[t],
                ),
            forall|t: int| 0 <= t < emissions@.len() ==> prob3(#[trigger] alpha@[t]),
            forall|t: int|
                0 <= t < emissions@.len() ==> beta_row_matches(
                    *self,
                    emissions@,
                    t,
                    #[trigger] beta@[t],
                ),
            forall|t: int, i: int|
                0 <= t < emissions@.len() && 0 <= i < 3 ==> 0 <= #[trigger] beta@[t][i]
                    <= VAL_LIMIT,
        ensures
            forall|i: int, j: int|
                0 <= i < 3 && 0 <= j < 3 ==> #[trigger] r.0[i][j] == xi_sum_at(
                    *self,
                    emissions@,
                    emissions@.len() - 1,
                    i,
                    j,
                ),
            forall|i: int|
                0 <= i < 3 ==> #[trigger] r.1[i] == occupancy_at(
                    *self,
                    emissions@,
                    emissions@.len() - 1,
                    i,
                ),
    {
        let t_len = emissions.len();
        let mut x00: i64 = 0;
        let mut x01: i64 = 0;
        let mut x02: i64 = 0;
        let mut x10: i64 = 0;
        let mut x11: i64 = 0;
        let mut x12: i64 = 0;
        let mut x20: i64 = 0;
        let mut x21: i64 = 0;
        let mut x22: i64 = 0;
        let mut t: usize = 0;
        while t < t_len - 1
            invariant
                0 <= t <= t_len - 1,
                x00 == xi_sum_at(*self, emissions@, t as int, 0, 0),
                x01 == xi_sum_at(*self, emissions@, t as int, 0, 1),
                x02 == xi_sum_at(*self, emissions@, t as int, 0, 2),
                x10 == xi_sum_at(*self, emissions@, t as int, 1, 0),
                x11 == xi_sum_at(*self, emissions@, t as int, 1, 1),
                x12 == xi_sum_at(*self, emissions@, t as int, 1, 2),
                x20 == xi_sum_at(*self, emissions@, t as int, 2, 0),
                x21 == xi_sum_at(*self, emissions@, t as int, 2, 1),
                x22 == xi_sum_at(*self, emissions@, t as int, 2, 2),
                0 <= x00 <= t * SCALE,
                0 <= x01 <= t * SCALE,
                0 <= x02 <= t * SCALE,
                0 <= x10 <= t * SCALE,
                0 <= x11 <= t * SCALE,
                0 <= x12 <= t * SCALE,
                0 <= x20 <= t * SCALE,
                0 <= x21 <= t * SCALE,
                0 <= x22 <= t * SCALE,
            decreases t_len - 1 - t,
        {
            let a: [i64; 3] = alpha[t];
            let e1: [i64; 3] = emissions[t + 1];
            let b1: [i64; 3] = beta[t + 1];
            let w00 = xi_weight_exec(a[0], self.transition_matrix[0][0], e1[0], b1[0]);
            let w01 = xi_weight_exec(a[0], self.transition_matrix[0][1], e1[1], b1[1]);
            let w02 = xi_weight_exec(a[0], self.transition_matrix[0][2], e1[2], b1[2]);
            let w10 = xi_weight_exec(a[1], self.transition_matrix[1][0], e1[0], b1[0]);
            let w11 = xi_weight_exec(a[1], self.transition_matrix[1][1], e1[1], b1[1]);
            let w12 = xi_weight_exec(a[1], self.transition_matrix[1][2], e1[2], b1[2]);
            let w20 = xi_weight_exec(a[2], self.transition_matrix[2][0], e1[0], b1[0]);
            let w21 = xi_weight_exec(a[2], self.transition_matrix[2][1], e1[1], b1[1]);
            let w22 = xi_weight_exec(a[2], self.transition_matrix[2][2], e1[2], b1[2]);
            let denom: i128 = w00 + w01 + w02 + w10 + w11 + w12 + w20 + w21 + w22;
            proof {
                assert(denom == xi_denom_at(*self, emissions@, t as int));
            }
            if denom > 0 {
                proof {
                    crate::lemma_scaled_fraction_bound(w00 as int, SCALE as int, denom as int);
                    crate::lemma_scaled_fraction_bound(w01 as int, SCALE as int, denom as int);
                    crate::lemma_scaled_fraction_bound(w02 as int, SCALE as int, denom as int);
                    crate::lemma_scaled_fraction_bound(w10 as int, SCALE as int, denom as int);
                    crate::lemma_scaled_fraction_bound(w11 as int, SCALE as int, denom as int);
                    crate::lemma_scaled_fraction_bound(w12 as int, SCALE as int, denom as int);
                    crate::lemma_scaled_fraction_bound(w20 as int, SCALE as int, denom as int);
                    crate::lemma_scaled_fraction_bound(w21 as int, SCALE as int, denom as int);
                    crate::lemma_scaled_fraction_bound(w22 as int, SCALE as int, denom as int);
                }
                x00 = x00 + ((w00 * (SCALE as i128) / denom) as i64);
                x01 = x01 + ((w01 * (SCALE as i128) / denom) as i64);
                x02 = x02 + ((w02 * (SCALE as i128) / denom) as i64);
                x10 = x10 + ((w10 * (SCALE as i128) / denom) as i64);
                x11 = x11 + ((w11 * (SCALE as i128) / denom) as i64);
                x12 = x12 + ((w12 * (SCALE as i128) / denom) as i64);
                x20 = x20 + ((w20 * (SCALE as i128) / denom) as i64);
                x21 = x21 + ((w21 * (SCALE as i128) / denom) as i64);
                x22 = x22 + ((w22 * (SCALE as i128) / denom) as i64);
            }
            t = t + 1;
        }
        ([[x00, x01, x02], [x10, x11, x12], [x20, x21, x22]], [
            x00 + x01 + x02,
            x10 + x11 + x12,
            x20 + x21 + x22,
        ])
    }
}

/// Total posterior mass of state `s` over the first `t` steps.
pub open spec fn gamma_total_at(m: GaussianHmm, e: Seq<[i64; 3]>, s: int, t: int) -> int
    decreases t,
{
    if t <= 0 {
        0
    } else {
        gamma_total_at(m, e, s, t - 1) + gamma_at(m, e, t - 1, s)
    }
}

/// Posterior-weighted sum of feature `f` for state `s` over the first `t`
/// steps.
pub open spec fn mean_num_at(
    m: GaussianHmm,
    e: Seq<[i64; 3]>,
    rows: Seq<[i64; 4]>,
    s: int,
    f: int,
    t: int,
) -> int
    decreases t,
{
    if t <= 0 {
        0
    } else {
        mean_num_at(m, e, rows, s, f, t - 1) + gamma_at(m, e, t - 1, s) * rows[t - 1][f]
    }
}

/// Updated mean of feature `f` in state `s`: the posterior-weighted average
/// of the observations, or the previous mean when the state got no mass.
pub open spec fn em_mean(
    m: GaussianHmm,
    e: Seq<[i64; 3]>,
    rows: Seq<[i64; 4]>,
    s: int,
    f: int,
) -> int {
    let g = gamma_total_at(m, e, s, e.len() as int);
    if g <= 0 {
        m.means[s][f] as int
    } else {
        crate::div_trunc(mean_num_at(m, e, rows, s, f, rows.len() as int), g)
    }
}

/// Squared deviation rescaled to fixed point, the deviation first capped at
/// `VAL_LIMIT` so the square stays representable.
pub open spec fn sq_capped(d: int) -> int {
    let c = crate::math::ema::clamp_spec(d, -(VAL_LIMIT as int), VAL_LIMIT as int);
    c * c / (SCALE as int)
}

/// Posterior-weighted squared deviations of feature `f` in state `s` over
/// the first `t` steps, saturating at `VAR_ACC_CAP` so the running total
/// stays representable.
pub open spec fn var_acc_at(
    m: GaussianHmm,
    e: Seq<[i64; 3]>,
    rows: Seq<[i64; 4]>,
    s: int,
    f: int,
    mean: int,
    t: int,
) -> int
    decreases t,
{
    if t <= 0 {
        0
    } else {
        min_int(
            var_acc_at(m, e, rows, s, f, mean, t - 1) + gamma_at(m, e, t - 1, s) * sq_capped(
                rows[t - 1][f] - mean,
            ) / (SCALE as int),
            100_000_000_000_000_000_000_000_000_000int,
        )
    }
}

/// Updated variance of feature `f` in state `s`: the posterior-weighted
/// variance about the updated mean (saturated into the fixed-point range and
/// floored at `MIN_VAR`), or the previous variance when the state got no
/// mass.
pub open spec fn em_covar(
    m: GaussianHmm,
    e: Seq<[i64; 3]>,
    rows: Seq<[i64; 4]>,
    s: int,
    f: int,
) -> int {
    let g = gamma_total_at(m, e, s, e.len() as int);
    if g <= 0 {
        m.covars[s][f] as int
    } else {
        max_int(
            crate::sat_i64(
                var_acc_at(m, e, rows, s, f, em_mean(m, e, rows, s, f), rows.len() as int) * (
                SCALE as int) / g,
            ),
            MIN_VAR as int,
        )
    }
}

fn sq_capped_exec(d: i128) -> (r: i128)
    ensures
        r == sq_capped(d as int),
        0 <= r <= VAL_LIMIT as int * VAL_LIMIT as int / (SCALE as int),
{
    let c: i128 = if d < -(VAL_LIMIT as i128) {
        -(VAL_LIMIT as i128)
    } else if d > (VAL_LIMIT as i128) {
        VAL_LIMIT as i128
    } else {
        d
    };
    proof {
        assert(0 <= c * c <= VAL_LIMIT as int * VAL_LIMIT as int) by (nonlinear_arith)
            requires
                -(VAL_LIMIT as int) <= c <= VAL_LIMIT as int,
        ;
        vstd::arithmetic::div_mod::lemma_div_pos_is_pos(c * c, SCALE as int);
        vstd::arithmetic::div_mod::lemma_div_is_ordered(
            c * c,
            VAL_LIMIT as int * VAL_LIMIT as int,
            SCALE as int,
        );
    }
    (c * c) / (SCALE as i128)
}

#[verifier::loop_isolation(false)]
fn state_stats(
    gamma: &Vec<[i64; 3]>,
    rows: &Vec<[i64; 4]>,
    s: usize,
    Ghost(m): Ghost<GaussianHmm>,
    Ghost(e): Ghost<Seq<[i64; 3]>>,
) -> (r: (i64, [i64; 4]))
    requires
        s < 3,
        gamma@.len() == rows@.len(),
        e.len() == rows@.len(),
        rows@.len() <= 1_000_000_000,
        forall|t: int| 0 <= t < gamma@.len() ==> gamma_row_matches(m, e, t, #[trigger] gamma@[t]),
        forall|t: int, k: int|
            0 <= t < gamma@.len() && 0 <= k < 3 ==> 0 <= #[trigger] gamma@[t][k] <= SCALE,
    ensures
        r.0 == gamma_total_at(m, e, s as int, e.len() as int),
        r.0 >= 0,
        r.0 > 0 ==> forall|f: int|
            0 <= f < 4 ==> #[trigger] r.1[f] == crate::div_trunc(
                mean_num_at(m, e, rows@, s as int, f, rows@.len() as int),
                r.0 as int,
            ),
{
    let t_len = rows.len();
    let mut g: i64 = 0;
    let mut n0: i128 = 0;
    let mut n1: i128 = 0;
    let mut n2: i128 = 0;
    let mut n3: i128 = 0;
    let ghost lo: int = 0x8000000000000000int;
    let mut t: usize = 0;
    while t < t_len
        invariant
            0 <= t <= t_len,
            g == gamma_total_at(m, e, s as int, t as int),
            0 <= g <= t * SCALE,
            n0 == mean_num_at(m, e, rows@, s as int, 0, t as int),
            n1 == mean_num_at(m, e, rows@, s as int, 1, t as int),
            n2 == mean_num_at(m, e, rows@, s as int, 2, t as int),
            n3 == mean_num_at(m, e, rows@, s as int, 3, t as int),
            -(g as int) * lo <= n0 <= (g as int) * (i64::MAX as int),
            -(g as int) * lo <= n1 <= (g as int) * (i64::MAX as int),
            -(g as int) * lo <= n2 <= (g as int) * (i64::MAX as int),
            -(g as int) * lo <= n3 <= (g as int) * (i64::MAX as int),
        decreases t_len - t,
    {
        let gr: [i64; 3] = gamma[t];
        let row: [i64; 4] = rows[t];
        let gv: i64 = gr[s];
        proof {
            assert forall|f: int| 0 <= f < 4 implies -(gv as int) * lo <= (gv as int) * (
            #[trigger] row[f] as int) <= (gv as int) * (i64::MAX as int) by {
                assert(-(gv as int) * lo <= (gv as int) * (row[f] as int) <= (gv as int) * (
                i64::MAX as int)) by (nonlinear_arith)
                    requires
                        0 <= gv as int,
                        -lo <= row[f] as int <= i64::MAX as int,
                        lo == 0x8000000000000000int,
                ;
            }
            assert((g as int + gv as int) * lo == (g as int) * lo + (gv as int) * lo)
                by (nonlinear_arith);
            assert((g as int + gv as int) * (i64::MAX as int) == (g as int) * (i64::MAX as int) + (
            gv as int) * (i64::MAX as int)) by (nonlinear_arith);
        }
        n0 = n0 + (gv as i128) * (row[0] as i128);
        n1 = n1 + (gv as i128) * (row[1] as i128);
        n2 = n2 + (gv as i128) * (row[2] as i128);
        n3 = n3 + (gv as i128) * (row[3] as i128);
        g = g + gv;
        t = t + 1;
    }
    if g > 0 {
        proof {
            lemma_mean_fits(n0 as int, g as int, lo);
            lemma_mean_fits(n1 as int, g as int, lo);
            lemma_mean_fits(n2 as int, g as int, lo);
            lemma_mean_fits(n3 as int, g as int, lo);
        }
        let m0: i64 = (n0 / (g as i128)) as i64;
        let m1: i64 = (n1 / (g as i128)) as i64;
        let m2: i64 = (n2 / (g as i128)) as i64;
        let m3: i64 = (n3 / (g as i128)) as i64;
        (g, [m0, m1, m2, m3])
    } else {
        (g, [0, 0, 0, 0])
    }
}

/// A posterior-weighted average of `i64` observations stays in the `i64`
/// range.
proof fn lemma_mean_fits(n: int, g: int, lo: int)
    requires
        g > 0,
        lo == 0x8000000000000000int,
        -g * lo <= n <= g * (i64::MAX as int),
    ensures
        i64::MIN <= crate::div_trunc(n, g) <= i64::MAX,
{
    crate::lemma_div_trunc_bound(n, g, lo);
    if n >= 0 {
        vstd::arithmetic::div_mod::lemma_div_is_ordered(n, g * (i64::MAX as int), g);
        vstd::arithmetic::div_mod::lemma_div_multiples_vanish(i64::MAX as int, g);
        vstd::arithmetic::div_mod::lemma_div_pos_is_pos(n, g);
    }
}

#[verifier::loop_isolation(false)]
fn state_vars(
    gamma: &Vec<[i64; 3]>,
    rows: &Vec<[i64; 4]>,
    s: usize,
    mean: [i64; 4],
    g: i64,
    Ghost(m): Ghost<GaussianHmm>,
    Ghost(e): Ghost<Seq<[i64; 3]>>,
) -> (v: [i64; 4])
    requires
        s < 3,
        gamma@.len() == rows@.len(),
        e.len() == rows@.len(),
        rows@.len() <= 1_000_000_000,
        forall|t: int| 0 <= t < gamma@.len() ==> gamma_row_matches(m, e, t, #[trigger] gamma@[t]),
        forall|t: int, k: int|
            0 <= t < gamma@.len() && 0 <= k < 3 ==> 0 <= #[trigger] gamma@[t][k] <= SCALE,
        g > 0,
        g == gamma_total_at(m, e, s as int, e.len() as int),
    ensures
        forall|f: int|
            0 <= f < 4 ==> #[trigger] v[f] == max_int(
                crate::sat_i64(
                    var_acc_at(m, e, rows@, s as int, f, mean[f] as int, rows@.len() as int) * (
                    SCALE as int) / (g as int),
                ),
                MIN_VAR as int,
            ),
{
    let t_len = rows.len();
    let cap: i128 = 100_000_000_000_000_000_000_000_000_000i128;
    let mut a0: i128 = 0;
    let mut a1: i128 = 0;
    let mut a2: i128 = 0;
    let mut a3: i128 = 0;
    let mut t: usize = 0;
    while t < t_len
        invariant
            0 <= t <= t_len,
            a0 == var_acc_at(m, e, rows@, s as int, 0, mean[0] as int, t as int),
            a1 == var_acc_at(m, e, rows@, s as int, 1, mean[1] as int, t as int),
            a2 == var_acc_at(m, e, rows@, s as int, 2, mean[2] as int, t as int),
            a3 == var_acc_at(m, e, rows@, s as int, 3, mean[3] as int, t as int),
            0 <= a0 <= cap as int,
            0 <= a1 <= cap as int,
            0 <= a2 <= cap as int,
            0 <= a3 <= cap as int,
        decreases t_len - t,
    {
        let gr: [i64; 3] = gamma[t];
        let row: [i64; 4] = rows[t];
        let gv: i64 = gr[s];
        let s0 = sq_capped_exec((row[0] as i128) - (mean[0] as i128));
        let s1 = sq_capped_exec((row[1] as i128) - (mean[1] as i128));
        let s2 = sq_capped_exec((row[2] as i128) - (mean[2] as i128));
        let s3 = sq_capped_exec((row[3] as i128) - (mean[3] as i128));
        proof {
            assert(0 <= gv as int * s0 <= SCALE as int * (VAL_LIMIT as int * VAL_LIMIT as int / (
            SCALE as int))) by (nonlinear_arith)
                requires
                    0 <= gv as int <= SCALE as int,
                    0 <= s0 <= VAL_LIMIT as int * VAL_LIMIT as int / (SCALE as int),
            ;
            assert(0 <= gv as int * s1 <= SCALE as int * (VAL_LIMIT as int * VAL_LIMIT as int / (
            SCALE as int))) by (nonlinear_arith)
                requires
                    0 <= gv as int <= SCALE as int,
                    0 <= s1 <= VAL_LIMIT as int * VAL_LIMIT as int / (SCALE as int),
            ;
            assert(0 <= gv as int * s2 <= SCALE as int * (VAL_LIMIT as int * VAL_LIMIT as int / (
            SCALE as int))) by (nonlinear_arith)
                requires
                    0 <= gv as int <= SCALE as int,
                    0 <= s2 <= VAL_LIMIT as int * VAL_LIMIT as int / (SCALE as int),
            ;
            assert(0 <= gv as int * s3 <= SCALE as int * (VAL_LIMIT as int * VAL_LIMIT as int / (
            SCALE as int))) by (nonlinear_arith)
                requires
                    0 <= gv as int <= SCALE as int,
                    0 <= s3 <= VAL_LIMIT as int * VAL_LIMIT as int / (SCALE as int),
            ;
            vstd::arithmetic::div_mod::lemma_div_pos_is_pos(gv as int * s0, SCALE as int);
            vstd::arithmetic::div_mod::lemma_div_pos_is_pos(gv as int * s1, SCALE as int);
            vstd::arithmetic::div_mod::lemma_div_pos_is_pos(gv as int * s2, SCALE as int);
            vstd::arithmetic::div_mod::lemma_div_pos_is_pos(gv as int * s3, SCALE as int);
        }
        let d0: i128 = (gv as i128) * s0 / (SCALE as i128);
        let d1: i128 = (gv as i128) * s1 / (SCALE as i128);
        let d2: i128 = (gv as i128) * s2 / (SCALE as i128);
        let d3: i128 = (gv as i128) * s3 / (SCALE as i128);
        a0 = if a0 + d0 > cap {
            cap
        } else {
            a0 + d0
        };
        a1 = if a1 + d1 > cap {
            cap
        } else {
            a1 + d1
        };
        a2 = if a2 + d2 > cap {
            cap
        } else {
            a2 + d2
        };
        a3 = if a3 + d3 > cap {
            cap
        } else {
            a3 + d3
        };
        t = t + 1;
    }
    proof {
        vstd::arithmetic::div_mod::lemma_div_pos_is_pos(a0 as int * (SCALE as int), g as int);
        vstd::arithmetic::div_mod::lemma_div_pos_is_pos(a1 as int * (SCALE as int), g as int);
        vstd::arithmetic::div_mod::lemma_div_pos_is_pos(a2 as int * (SCALE as int), g as int);
        vstd::arithmetic::div_mod::lemma_div_pos_is_pos(a3 as int * (SCALE as int), g as int);
    }
    let v0: i128 = a0 * (SCALE as i128) / (g as i128);
    let v1: i128 = a1 * (SCALE as i128) / (g as i128);
    let v2: i128 = a2 * (SCALE as i128) / (g as i128);
    let v3: i128 = a3 * (SCALE as i128) / (g as i128);
    [sat_floor_var(v0), sat_floor_var(v1), sat_floor_var(v2), sat_floor_var(v3)]
}

fn sat_floor_var(v: i128) -> (r: i64)
    requires
        v >= 0,
    ensures
        r == max_int(crate::sat_i64(v as int), MIN_VAR as int),
{
    let s: i64 = if v > (i64::MAX as i128) {
        i64::MAX
    } else {
        v as i64
    };
    if s < MIN_VAR {
        MIN_VAR
    } else {
        s
    }
}

impl GaussianHmm {
    /// One Baum-Welch expectation/maximization iteration over a window of
    /// feature rows and their (host-computed) emission likelihoods: forward
    /// and backward passes, state posteriors and transition expectations,
    /// then the parameter updates — initial distribution from the first
    /// posterior, transition rows from the normalized expectations (rows
    /// with no occupancy unchanged), and posterior-weighted means and
    /// floored variances (states with no mass unchanged).
    pub fn em_step(&mut self, rows: &Vec<[i64; 4]>, emissions: &Vec<[i64; 3]>)
        requires
            old(self).wf(),
            rows@.len() == emissions@.len(),
            1 <= rows@.len() <= 1_000_000_000,
            forall|t: int|
                0 <= t < emissions@.len() ==> emission_row_ok(#[trigger] emissions@[t]),
        ensures
            final(self).wf(),
            final(self).trained == old(self).trained,
            final(self).training_depth == old(self).training_depth,
            forall|k: int|
                0 <= k < 3 ==> #[trigger] final(self).initial_probs[k] == uniform_norm3_at(
                    gamma_at(*old(self), emissions@, 0, 0),
                    gamma_at(*old(self), emissions@, 0, 1),
                    gamma_at(*old(self), emissions@, 0, 2),
                    k,
                ),
            forall|i: int|
                0 <= i < 3 && occupancy_at(*old(self), emissions@, emissions@.len() - 1, i) <= 0
                    ==> #[trigger] final(self).transition_matrix[i] == old(
                    self,
                ).transition_matrix[i],
            forall|i: int, k: int|
                0 <= i < 3 && 0 <= k < 3 && occupancy_at(
                    *old(self),
                    emissions@,
                    emissions@.len() - 1,
                    i,
                ) > 0 ==> #[trigger] final(self).transition_matrix[i][k] == uniform_norm3_at(
                    xi_sum_at(*old(self), emissions@, emissions@.len() - 1, i, 0),
                    xi_sum_at(*old(self), emissions@, emissions@.len() - 1, i, 1),
                    xi_sum_at(*old(self), emissions@, emissions@.len() - 1, i, 2),
                    k,
                ),
            forall|s: int, f: int|
                0 <= s < 3 && 0 <= f < 4 ==> #[trigger] final(self).means[s][f] == em_mean(
                    *old(self),
                    emissions@,
                    rows@,
                    s,
                    f,
                ),
            forall|s: int, f: int|
                0 <= s < 3 && 0 <= f < 4 ==> #[trigger] final(self).covars[s][f] == em_covar(
                    *old(self),
                    emissions@,
                    rows@,
                    s,
                    f,
                ),
    {
        let ghost m0 = *self;
        let (alpha, scales) = self.forward_scaled(emissions);
        let beta = self.backward_scaled(emissions, &scales);
        let gamma = self.compute_gamma(emissions, &alpha, &beta);
        let (xi, occ) = self.compute_xi_sums(emissions, &alpha, &beta);
        let g0: [i64; 3] = gamma[0];
        let new_initial = normalize_uniform3(g0[0], g0[1], g0[2]);
        let row0: [i64; 3] = if occ[0] > 0 {
            normalize_uniform3(xi[0][0], xi[0][1], xi[0][2])
        } else {
            self.transition_matrix[0]
        };
        let row1: [i64; 3] = if occ[1] > 0 {
            normalize_uniform3(xi[1][0], xi[1][1], xi[1][2])
        } else {
            self.transition_matrix[1]
        };
        let row2: [i64; 3] = if occ[2] > 0 {
            normalize_uniform3(xi[2][0], xi[2][1], xi[2][2])
        } else {
            self.transition_matrix[2]
        };
        let (gt0, mean0) = state_stats(&gamma, rows, 0, Ghost(m0), Ghost(emissions@));
        let (gt1, mean1) = state_stats(&gamma, rows, 1, Ghost(m0), Ghost(emissions@));
        let (gt2, mean2) = state_stats(&gamma, rows, 2, Ghost(m0), Ghost(emissions@));
        let new_mean0: [i64; 4] = if gt0 > 0 {
            mean0
        } else {
            self.means[0]
        };
        let new_mean1: [i64; 4] = if gt1 > 0 {
            mean1
        } else {
            self.means[1]
        };
        let new_mean2: [i64; 4] = if gt2 > 0 {
            mean2
        } else {
            self.means[2]
        };
        let new_cov0: [i64; 4] = if gt0 > 0 {
            state_vars(&gamma, rows, 0, new_mean0, gt0, Ghost(m0), Ghost(emissions@))
        } else {
            self.covars[0]
        };
        let new_cov1: [i64; 4] = if gt1 > 0 {
            state_vars(&gamma, rows, 1, new_mean1, gt1, Ghost(m0), Ghost(emissions@))
        } else {
            self.covars[1]
        };
        let new_cov2: [i64; 4] = if gt2 > 0 {
            state_vars(&gamma, rows, 2, new_mean2, gt2, Ghost(m0), Ghost(emissions@))
        } else {
            self.covars[2]
        };
        self.initial_probs = new_initial;
        self.transition_matrix = [row0, row1, row2];
        self.means = [new_mean0, new_mean1, new_mean2];
        self.covars = [new_cov0, new_cov1, new_cov2];
        proof {
            assert forall|i: int, j: int| 0 <= i < 3 && 0 <= j < 4 implies #[trigger] self
                .covars[i][j] >= MIN_VAR by {
                if i == 0 {
                    assert(m0.covars[0][j] >= MIN_VAR);
                } else if i == 1 {
                    assert(m0.covars[1][j] >= MIN_VAR);
                } else {
                    assert(m0.covars[2][j] >= MIN_VAR);
                }
            }
        }
    }
}

/// Strict order on row indices: by spread value, ties by original index —
/// the order of a stable ascending sort on the spread feature.
pub open spec fn lex_before(rows: Seq<[i64; 4]>, a: int, b: int) -> bool {
    rows[a][1] < rows[b][1] || (rows[a][1] == rows[b][1] && a < b)
}

/// `order` lists every row index once, ascending under the stable spread
/// order (the strictness of the order makes the listing unique).
pub open spec fn is_stable_spread_order(rows: Seq<[i64; 4]>, order: Seq<usize>) -> bool {
    &&& order.len() == rows.len()
    &&& forall|i: int| 0 <= i < order.len() ==> (#[trigger] order[i]) < rows.len()
    &&& forall|i: int, j: int|
        #![trigger order[i], order[j]]
        0 <= i < j < order.len() ==> lex_before(rows, order[i] as int, order[j] as int)
}

/// Quantile position of state `s` among `t` sorted rows:
/// `floor((s + 0.5) * t / 3)`, clipped to the last index.
pub open spec fn quantile_idx(t: int, s: int) -> int {
    min_int((2 * s + 1) * t / 6, t - 1)
}

/// Total of feature `f` over the first `t` rows.
pub open spec fn col_sum(rows: Seq<[i64; 4]>, f: int, t: int) -> int
    decreases t,
{
    if t <= 0 {
        0
    } else {
        col_sum(rows, f, t - 1) + rows[t - 1][f]
    }
}

/// Global mean of feature `f`.
pub open spec fn col_mean(rows: Seq<[i64; 4]>, f: int) -> int {
    crate::div_trunc(col_sum(rows, f, rows.len() as int), rows.len() as int)
}

/// Capped squared deviations of feature `f` about `mean` over the first `t`
/// rows.
pub open spec fn col_sq_sum(rows: Seq<[i64; 4]>, f: int, mean: int, t: int) -> int
    decreases t,
{
    if t <= 0 {
        0
    } else {
        col_sq_sum(rows, f, mean, t - 1) + sq_capped(rows[t - 1][f] - mean)
    }
}

/// Global variance of feature `f`, saturated into the fixed-point range and
/// floored at `MIN_VAR`.
pub open spec fn col_var(rows: Seq<[i64; 4]>, f: int) -> int {
    max_int(
        crate::sat_i64(
            col_sq_sum(rows, f, col_mean(rows, f), rows.len() as int) / rows.len() as int,
        ),
        MIN_VAR as int,
    )
}

fn lex_gt(rows: &Vec<[i64; 4]>, a: usize, b: usize) -> (r: bool)
    requires
        a < rows@.len(),
        b < rows@.len(),
    ensures
        r == lex_before(rows@, b as int, a as int),
{
    rows[a][1] > rows[b][1] || (rows[a][1] == rows[b][1] && a > b)
}

#[verifier::loop_isolation(false)]
fn spread_sort_indices(rows: &Vec<[i64; 4]>) -> (order: Vec<usize>)
    requires
        1 <= rows@.len() <= 1_000_000_000,
    ensures
        is_stable_spread_order(rows@, order@),
{
    let n = rows.len();
    let mut order: Vec<usize> = Vec::new();
    let mut i: usize = 0;
    while i < n
        invariant
            0 <= i <= n,
            order.len() == i,
            forall|q: int| 0 <= q < i ==> (#[trigger] order@[q]) == q,
        decreases n - i,
    {
        order.push(i);
        i = i + 1;
    }
    let mut i: usize = 1;
    while i < n
        invariant
            1 <= i <= n,
            order.len() == n,
            forall|q: int| 0 <= q < n ==> (#[trigger] order@[q]) < n,
            forall|a: int, b: int|
                #![trigger order@[a], order@[b]]
                0 <= a < b < n ==> order@[a] != order@[b],
            forall|a: int, b: int|
                #![trigger order@[a], order@[b]]
                0 <= a < b < i ==> lex_before(rows@, order@[a] as int, order@[b] as int),
        decreases n - i,
    {
        let mut j: usize = i;
        while j > 0 && lex_gt(rows, order[j - 1], order[j])
            invariant
                0 <= j <= i,
                order.len() == n,
                forall|q: int| 0 <= q < n ==> (#[trigger] order@[q]) < n,
                forall|a: int, b: int|
                    #![trigger order@[a], order@[b]]
                    0 <= a < b < n ==> order@[a] != order@[b],
                forall|a: int, b: int|
                    #![trigger order@[a], order@[b]]
                    0 <= a < b <= i && b != j ==> lex_before(
                        rows@,
                        order@[a] as int,
                        order@[b] as int,
                    ),
            decreases j,
        {
            let x: usize = order[j - 1];
            let y: usize = order[j];
            let ghost before = order@;
            order.set(j - 1, y);
            order.set(j, x);
            proof {
                let after = order@;
                assert(after == before.update(j - 1, y).update(j as int, x));
                assert forall|a: int, b: int|
                    #![trigger after[a], after[b]]
                    0 <= a < b < n implies after[a] != after[b] by {
                    assert(before[a as int] != before[b as int] || a == b);
                }
                assert forall|a: int, b: int|
                    #![trigger after[a], after[b]]
                    0 <= a < b <= i && b != j - 1 implies lex_before(
                    rows@,
                    after[a] as int,
                    after[b] as int,
                ) by {
                    if b == j {
                        if a == j - 1 {
                            assert(after[a] == before[j as int] && after[b] == before[j - 1]);
                        } else {
                            assert(after[a] == before[a] && after[b] == before[j - 1]);
                        }
                    } else if b < j - 1 {
                        assert(after[a] == before[a] && after[b] == before[b]);
                    } else {
                        if a == j - 1 {
                            assert(after[a] == before[j as int] && after[b] == before[b]);
                        } else if a == j {
                            assert(after[a] == before[j - 1] && after[b] == before[b]);
                        } else {
                            assert(after[a] == before[a] && after[b] == before[b]);
                        }
                    }
                }
            }
            j = j - 1;
        }
        proof {
            if j > 0 {
                assert(order@[j - 1] != order@[j as int]);
                assert(lex_before(rows@, order@[j - 1] as int, order@[j as int] as int));
            }
            assert forall|a: int, b: int|
                #![trigger order@[a], order@[b]]
                0 <= a < b < i + 1 implies lex_before(
                rows@,
                order@[a] as int,
                order@[b] as int,
            ) by {
                if b == j && j > 0 && a < j - 1 {
                    assert(lex_before(rows@, order@[a] as int, order@[j - 1] as int));
                    assert(lex_before(rows@, order@[j - 1] as int, order@[b] as int));
                }
            }
        }
        i = i + 1;
    }
    order
}

#[verifier::loop_isolation(false)]
fn col_variance(rows: &Vec<[i64; 4]>, f: usize) -> (v: i64)
    requires
        f < 4,
        1 <= rows@.len() <= 1_000_000_000,
    ensures
        v == col_var(rows@, f as int),
{
    let n = rows.len();
    let ghost lo: int = 0x8000000000000000int;
    let mut sum: i128 = 0;
    let mut t: usize = 0;
    while t < n
        invariant
            0 <= t <= n,
            sum == col_sum(rows@, f as int, t as int),
            -(t as int) * lo <= sum <= (t as int) * (i64::MAX as int),
        decreases n - t,
    {
        proof {
            assert((t as int + 1) * lo == (t as int) * lo + lo) by (nonlinear_arith);
            assert((t as int + 1) * (i64::MAX as int) == (t as int) * (i64::MAX as int) + (
            i64::MAX as int)) by (nonlinear_arith);
        }
        sum = sum + (rows[t][f] as i128);
        t = t + 1;
    }
    proof {
        assert(-(n as int) * lo <= sum <= (n as int) * lo) by (nonlinear_arith)
            requires
                -(n as int) * lo <= sum <= (n as int) * (i64::MAX as int),
                lo == 0x8000000000000000int,
                n as int >= 1,
        ;
        lemma_mean_fits(sum as int, n as int, lo);
    }
    let mean: i64 = (sum / (n as i128)) as i64;
    let mut acc: i128 = 0;
    let mut t: usize = 0;
    while t < n
        invariant
            0 <= t <= n,
            acc == col_sq_sum(rows@, f as int, mean as int, t as int),
            0 <= acc <= (t as int) * (VAL_LIMIT as int * VAL_LIMIT as int / (SCALE as int)),
        decreases n - t,
    {
        proof {
            assert((t as int + 1) * (VAL_LIMIT as int * VAL_LIMIT as int / (SCALE as int)) == (
            t as int) * (VAL_LIMIT as int * VAL_LIMIT as int / (SCALE as int)) + (
            VAL_LIMIT as int * VAL_LIMIT as int / (SCALE as int))) by (nonlinear_arith);
            vstd::arithmetic::mul::lemma_mul_inequality(
                t as int + 1,
                1_000_000_000int,
                VAL_LIMIT as int * VAL_LIMIT as int / (SCALE as int),
            );
        }
        let sq = sq_capped_exec((rows[t][f] as i128) - (mean as i128));
        acc = acc + sq;
        t = t + 1;
    }
    proof {
        vstd::arithmetic::div_mod::lemma_div_pos_is_pos(acc as int, n as int);
    }
    sat_floor_var(acc / (n as i128))
}

/// Seed parameters of a training run: each state's mean is the feature row
/// at its quantile position of the stable spread order (so the seeds spread
/// across the empirical range of the discriminating feature), and every
/// state shares the global per-feature variance, floored at `MIN_VAR`.
#[verifier::loop_isolation(false)]
pub fn initialize_from_rows(rows: &Vec<[i64; 4]>) -> (r: ([[i64; 4]; 3], [[i64; 4]; 3]))
    requires
        2 <= rows@.len() <= 1_000_000_000,
    ensures
        exists|order: Seq<usize>|
            {
                &&& #[trigger] is_stable_spread_order(rows@, order)
                &&& r.0[0] == rows@[order[quantile_idx(rows@.len() as int, 0)] as int]
                &&& r.0[1] == rows@[order[quantile_idx(rows@.len() as int, 1)] as int]
                &&& r.0[2] == rows@[order[quantile_idx(rows@.len() as int, 2)] as int]
            },
        forall|s: int, f: int|
            0 <= s < 3 && 0 <= f < 4 ==> #[trigger] r.1[s][f] == col_var(rows@, f),
{
    let n = rows.len();
    let order = spread_sort_indices(rows);
    let q0: u64 = (n as u64) / 6;
    let q1: u64 = 3 * (n as u64) / 6;
    let q2: u64 = 5 * (n as u64) / 6;
    let last: u64 = (n - 1) as u64;
    let p0: usize = if q0 > last {
        n - 1
    } else {
        q0 as usize
    };
    let p1: usize = if q1 > last {
        n - 1
    } else {
        q1 as usize
    };
    let p2: usize = if q2 > last {
        n - 1
    } else {
        q2 as usize
    };
    let means: [[i64; 4]; 3] = [rows[order[p0]], rows[order[p1]], rows[order[p2]]];
    let var_row: [i64; 4] = [
        col_variance(rows, 0),
        col_variance(rows, 1),
        col_variance(rows, 2),
        col_variance(rows, 3),
    ];
    proof {
        assert(is_stable_spread_order(rows@, order@));
        let t = rows@.len() as int;
        assert(n as int == t);
        assert(q0 as int == t / 6);
        assert(q1 as int == 3 * t / 6);
        assert(q2 as int == 5 * t / 6);
        assert(last as int == t - 1);
        assert(p0 as int == min_int(t / 6, t - 1));
        assert(quantile_idx(t, 0) == min_int(1 * t / 6, t - 1));
        assert(1 * t == t);
        assert(p0 as int == quantile_idx(rows@.len() as int, 0));
        assert(p1 as int == quantile_idx(rows@.len() as int, 1));
        assert(p2 as int == quantile_idx(rows@.len() as int, 2));
    }
    (means, [var_row, var_row, var_row])
}

fn normalize_uniform3(u0: i64, u1: i64, u2: i64) -> (out: [i64; 3])
    ensures
        out[0] == uniform_norm3_at(u0 as int, u1 as int, u2 as int, 0),
        out[1] == uniform_norm3_at(u0 as int, u1 as int, u2 as int, 1),
        out[2] == uniform_norm3_at(u0 as int, u1 as int, u2 as int, 2),
        prob3(out),
{
    let a: i64 = if u0 < 0 {
        0
    } else {
        u0
    };
    let b: i64 = if u1 < 0 {
        0
    } else {
        u1
    };
    let c: i64 = if u2 < 0 {
        0
    } else {
        u2
    };
    let s: i128 = a as i128 + b as i128 + c as i128;
    if s <= 0 {
        return [333_333_333, 333_333_333, 333_333_334];
    }
    proof {
        crate::math::baum_welch::lemma_share_pair(a as int, b as int, c as int, SCALE as int);
    }
    let q0: i64 = ((a as i128) * (SCALE as i128) / s) as i64;
    let q1: i64 = ((b as i128) * (SCALE as i128) / s) as i64;
    [q0, q1, SCALE - q0 - q1]
}

fn floor_var(v: i64) -> (r: i64)
    ensures
        r == max_int(v as int, MIN_VAR as int),
{
    if v < MIN_VAR {
        MIN_VAR
    } else {
        v
    }
}

} // verus!

//! Regime semantics: labelled detector state, quality tiers, the
//! transition-confirmation machine and snapshot bookkeeping.

use vstd::prelude::*;
use vstd::string::StrSliceExecFns;

use crate::hmm::GaussianHmm;
use crate::math::baum_welch::normalize_probs;
use crate::math::ema::{clamp, clamp_spec};
use crate::{div_trunc, max_int, min_int, SCALE};

verus! {

pub const TIER_SHALLOW_MAX: i32 = 999;

pub const TIER_BASELINE_MAX: i32 = 2499;

pub const TIER_DEEP_MAX: i32 = 3999;

/// Confidence modifier of a shallow training depth (0.70).
pub const MODIFIER_SHALLOW: i64 = 700_000_000;

/// Confidence modifier of a baseline training depth (0.85).
pub const MODIFIER_BASELINE: i64 = 850_000_000;

/// Confidence modifier of a deep training depth (0.95).
pub const MODIFIER_DEEP: i64 = 950_000_000;

/// Confidence modifier of a full training depth (1.00).
pub const MODIFIER_FULL: i64 = 1_000_000_000;

/// The three market regimes, ordered from bearish to bullish.
#[allow(non_camel_case_types)]
#[derive(Clone, Copy, Debug, PartialEq, Eq, Structural)]
pub enum Regime {
    BEARISH,
    RANGING,
    BULLISH,
}

impl Regime {
    /// Numeric label of the regime: bearish 0, ranging 1, bullish 2.
    pub open spec fn as_int(self) -> int {
        match self {
            Regime::BEARISH => 0,
            Regime::RANGING => 1,
            Regime::BULLISH => 2,
        }
    }

    /// Numeric label of the regime as carried in detector state.
    pub fn to_i32(self) -> (v: i32)
        ensures
            v as int == self.as_int(),
    {
        match self {
            Regime::BEARISH => 0,
            Regime::RANGING => 1,
            Regime::BULLISH => 2,
        }
    }
}

/// A regime label is valid when it names one of the three regimes.
pub open spec fn valid_regime(r: int) -> bool {
    0 <= r <= 2
}

/// Out-of-range labels fall back to ranging.
pub open spec fn norm_regime(r: int) -> int {
    if valid_regime(r) {
        r
    } else {
        1
    }
}

/// The detector's labelled output: regime, labelled posterior, confidence
/// margin, bias signal and bookkeeping of the update that produced them.
#[derive(Debug)]
pub struct RegimeState {
    pub regime: i32,
    pub probabilities: Vec<i64>,
    pub confidence: i64,
    pub bias_signal: i64,
    pub last_update_ts: i64,
    pub observation_count: usize,
}

/// Field-by-field equality of two regime states.
pub open spec fn state_eq(a: RegimeState, b: RegimeState) -> bool {
    &&& a.regime == b.regime
    &&& a.probabilities@ == b.probabilities@
    &&& a.confidence == b.confidence
    &&& a.bias_signal == b.bias_signal
    &&& a.last_update_ts == b.last_update_ts
    &&& a.observation_count == b.observation_count
}

fn copy_probabilities(v: &Vec<i64>) -> (out: Vec<i64>)
    ensures
        out@ == v@,
{
    let mut out: Vec<i64> = Vec::new();
    let mut i: usize = 0;
    while i < v.len()
        invariant
            0 <= i <= v.len(),
            out@ == v@.take(i as int),
        decreases v.len() - i,
    {
        out.push(v[i]);
        proof {
            assert(out@ =~= v@.take(i + 1 as int));
        }
        i = i + 1;
    }
    proof {
        assert(v@.take(v@.len() as int) =~= v@);
    }
    out
}

impl Clone for RegimeState {
    /// A clone reproduces every field.
    fn clone(&self) -> (res: Self)
        ensures
            state_eq(res, *self),
    {
        RegimeState {
            regime: self.regime,
            probabilities: copy_probabilities(&self.probabilities),
            confidence: self.confidence,
            bias_signal: self.bias_signal,
            last_update_ts: self.last_update_ts,
            observation_count: self.observation_count,
        }
    }
}

impl RegimeState {
    /// Assemble a state; a missing probability vector defaults to the
    /// ranging-biased distribution `[0, 1, 0]`.
    pub fn new(
        regime: i32,
        probabilities: Option<Vec<i64>>,
        confidence: i64,
        bias_signal: i64,
        last_update_ts: i64,
        observation_count: usize,
    ) -> (st: Self)
        ensures
            st.regime == regime,
            match probabilities {
                Some(p) => st.probabilities == p,
                None => st.probabilities@ == seq![0i64, SCALE as i64, 0i64],
            },
            st.confidence == confidence,
            st.bias_signal == bias_signal,
            st.last_update_ts == last_update_ts,
            st.observation_count == observation_count,
    {
        let probs: Vec<i64> = match probabilities {
            Some(p) => p,
            None => {
                let mut d: Vec<i64> = Vec::new();
                d.push(0);
                d.push(SCALE);
                d.push(0);
                proof {
                    assert(d@ =~= seq![0i64, SCALE as i64, 0i64]);
                }
                d
            },
        };
        RegimeState {
            regime,
            probabilities: probs,
            confidence,
            bias_signal,
            last_update_ts,
            observation_count,
        }
    }
}

/// Confirmation tracking of the most recent regime change.
#[derive(Clone, Copy, Debug, PartialEq, Eq, Structural)]
pub struct TertiaryTransition {
    pub from_regime: i32,
    pub to_regime: i32,
    pub confirmation_count: i32,
    pub confirmed: bool,
    pub changed_at: i64,
    pub transition_age_sec: i64,
}

impl Default for TertiaryTransition {
    /// The untransitioned starting point: ranging to ranging, no
    /// confirmations yet.
    fn default() -> (t: Self)
        ensures
            t.from_regime == 1,
            t.to_regime == 1,
            t.confirmation_count == 0,
            !t.confirmed,
            t.changed_at == 0,
            t.transition_age_sec == 0,
    {
        TertiaryTransition {
            from_regime: 1,
            to_regime: 1,
            confirmation_count: 0,
            confirmed: false,
            changed_at: 0,
            transition_age_sec: 0,
        }
    }
}

impl TertiaryTransition {
    pub fn new(
        from_regime: i32,
        to_regime: i32,
        confirmation_count: i32,
        confirmed: bool,
        changed_at: i64,
        transition_age_sec: i64,
    ) -> (t: Self)
        ensures
            t.from_regime == from_regime,
            t.to_regime == to_regime,
            t.confirmation_count == confirmation_count,
            t.confirmed == confirmed,
            t.changed_at == changed_at,
            t.transition_age_sec == transition_age_sec,
    {
        TertiaryTransition {
            from_regime,
            to_regime,
            confirmation_count,
            confirmed,
            changed_at,
            transition_age_sec,
        }
    }
}

/// A restored transition record is forced back into range: regimes fall back
/// to ranging, the confirmation count and age are floored at zero.
pub open spec fn sanitize_transition(t: TertiaryTransition) -> TertiaryTransition {
    TertiaryTransition {
        from_regime: norm_regime(t.from_regime as int) as i32,
        to_regime: norm_regime(t.to_regime as int) as i32,
        confirmation_count: max_int(t.confirmation_count as int, 0) as i32,
        confirmed: t.confirmed,
        changed_at: t.changed_at,
        transition_age_sec: max_int(t.transition_age_sec as int, 0) as i64,
    }
}

/// One step of the transition-confirmation machine.  On the first-ever update
/// the record is initialized to the current regime; a regime different from
/// the tracked one resets the record; a repeat increments the confirmation
/// count (saturating) and recomputes the age, and the change is confirmed
/// once a genuine transition has persisted over at least two updates.
pub open spec fn advance_spec(t: TertiaryTransition, regime: int, now: int) -> TertiaryTransition {
    let r = norm_regime(regime);
    if t.changed_at <= 0 {
        TertiaryTransition {
            from_regime: r as i32,
            to_regime: r as i32,
            confirmation_count: 1,
            confirmed: false,
            changed_at: now as i64,
            transition_age_sec: 0,
        }
    } else if r != t.to_regime {
        TertiaryTransition {
            from_regime: t.to_regime,
            to_regime: r as i32,
            confirmation_count: 1,
            confirmed: false,
            changed_at: now as i64,
            transition_age_sec: 0,
        }
    } else {
        let bumped = if t.confirmation_count == i32::MAX {
            i32::MAX as int
        } else {
            t.confirmation_count + 1
        };
        let count = max_int(bumped, 1);
        let age = now - t.changed_at;
        let age_sat = if age < 0 {
            0
        } else if age > i64::MAX {
            i64::MAX as int
        } else {
            age
        };
        TertiaryTransition {
            from_regime: t.from_regime,
            to_regime: t.to_regime,
            confirmation_count: count as i32,
            confirmed: t.from_regime != t.to_regime && count >= 2,
            changed_at: t.changed_at,
            transition_age_sec: age_sat as i64,
        }
    }
}

/// Law of the transition machine: from an untransitioned record, a first
/// regime `r1` initializes an unconfirmed record; a change to `r2` resets it
/// unconfirmed; a repeat of `r2` reaches two confirmations, is confirmed, and
/// carries the age elapsed since the change.
pub proof fn lemma_transition_confirmation(
    t0: TertiaryTransition,
    r1: int,
    r2: int,
    ts1: int,
    ts2: int,
    ts3: int,
)
    requires
        t0.changed_at <= 0,
        valid_regime(r1),
        valid_regime(r2),
        r1 != r2,
        0 < ts1 <= ts2 <= ts3,
        ts3 <= i64::MAX,
    ensures
        ({
            let a1 = advance_spec(t0, r1, ts1);
            let a2 = advance_spec(a1, r2, ts2);
            let a3 = advance_spec(a2, r2, ts3);
            &&& a1.from_regime == r1
            &&& a1.to_regime == r1
            &&& a1.confirmation_count == 1
            &&& !a1.confirmed
            &&& a2.from_regime == r1
            &&& a2.to_regime == r2
            &&& a2.confirmation_count == 1
            &&& !a2.confirmed
            &&& a3.from_regime == r1
            &&& a3.to_regime == r2
            &&& a3.confirmation_count == 2
            &&& a3.confirmed
            &&& a3.transition_age_sec == ts3 - ts2
        }),
{
}

/// Quality tier of a training depth (negative depths count as zero).
pub open spec fn quality_tier_spec(depth: int) -> Seq<char> {
    let d = max_int(depth, 0);
    if d <= TIER_SHALLOW_MAX as int {
        "shallow"@
    } else if d <= TIER_BASELINE_MAX as int {
        "baseline"@
    } else if d <= TIER_DEEP_MAX as int {
        "deep"@
    } else {
        "full"@
    }
}

/// Confidence modifier of a training depth, on the same breakpoints as the
/// quality tier.
pub open spec fn confidence_modifier_spec(depth: int) -> int {
    let d = max_int(depth, 0);
    if d <= TIER_SHALLOW_MAX as int {
        MODIFIER_SHALLOW as int
    } else if d <= TIER_BASELINE_MAX as int {
        MODIFIER_BASELINE as int
    } else if d <= TIER_DEEP_MAX as int {
        MODIFIER_DEEP as int
    } else {
        MODIFIER_FULL as int
    }
}

/// Law of the tier pairing: for every training depth, the quality-tier name
/// and the confidence modifier pick out the same tier, so the two snapshot
/// fields can never disagree.
pub proof fn lemma_modifier_matches_tier(depth: int)
    ensures
        quality_tier_spec(depth) == "shallow"@ <==> confidence_modifier_spec(depth)
            == MODIFIER_SHALLOW,
        quality_tier_spec(depth) == "baseline"@ <==> confidence_modifier_spec(depth)
            == MODIFIER_BASELINE,
        quality_tier_spec(depth) == "deep"@ <==> confidence_modifier_spec(depth)
            == MODIFIER_DEEP,
        quality_tier_spec(depth) == "full"@ <==> confidence_modifier_spec(depth)
            == MODIFIER_FULL,
{
    reveal_strlit("shallow");
    reveal_strlit("baseline");
    reveal_strlit("deep");
    reveal_strlit("full");
    assert("shallow"@.len() != "baseline"@.len());
    assert("shallow"@.len() != "deep"@.len());
    assert("baseline"@.len() != "deep"@.len());
    assert("shallow"@.len() != "full"@.len());
    assert("baseline"@.len() != "full"@.len());
    assert("deep"@[0] != "full"@[0]);
}

/// Tier name of a training depth: "shallow" up to 999 observations,
/// "baseline" up to 2499, "deep" up to 3999, "full" beyond.
pub fn quality_tier_for_depth(depth: i32) -> (t: &'static str)
    ensures
        t@ == quality_tier_spec(depth as int),
{
    let d: i32 = if depth < 0 {
        0
    } else {
        depth
    };
    if d <= TIER_SHALLOW_MAX {
        "shallow"
    } else if d <= TIER_BASELINE_MAX {
        "baseline"
    } else if d <= TIER_DEEP_MAX {
        "deep"
    } else {
        "full"
    }
}

/// Fixed-point confidence modifier of a training depth: 0.70, 0.85, 0.95 or
/// 1.00 by tier.
pub fn confidence_modifier_for_depth(depth: i32) -> (m: i64)
    ensures
        m == confidence_modifier_spec(depth as int),
        MODIFIER_SHALLOW <= m <= MODIFIER_FULL,
{
    let d: i32 = if depth < 0 {
        0
    } else {
        depth
    };
    if d <= TIER_SHALLOW_MAX {
        MODIFIER_SHALLOW
    } else if d <= TIER_BASELINE_MAX {
        MODIFIER_BASELINE
    } else if d <= TIER_DEEP_MAX {
        MODIFIER_DEEP
    } else {
        MODIFIER_FULL
    }
}

/// The whitespace that source names are trimmed of: the Unicode
/// white-space set, as `str::trim` removes it.
pub open spec fn is_space(c: char) -> bool {
    ||| c == ' '
    ||| c == '\t'
    ||| c == '\n'
    ||| c == '\u{000b}'
    ||| c == '\u{000c}'
    ||| c == '\r'
    ||| c == '\u{0085}'
    ||| c == '\u{00a0}'
    ||| c == '\u{1680}'
    ||| c == '\u{2000}'
    ||| c == '\u{2001}'
    ||| c == '\u{2002}'
    ||| c == '\u{2003}'
    ||| c == '\u{2004}'
    ||| c == '\u{2005}'
    ||| c == '\u{2006}'
    ||| c == '\u{2007}'
    ||| c == '\u{2008}'
    ||| c == '\u{2009}'
    ||| c == '\u{200a}'
    ||| c == '\u{2028}'
    ||| c == '\u{2029}'
    ||| c == '\u{202f}'
    ||| c == '\u{205f}'
    ||| c == '\u{3000}'
}

pub open spec fn trim_start_spec(s: Seq<char>) -> Seq<char>
    decreases s.len(),
{
    if s.len() > 0 && is_space(s[0]) {
        trim_start_spec(s.drop_first())
    } else {
        s
    }
}

pub open spec fn trim_end_spec(s: Seq<char>) -> Seq<char>
    decreases s.len(),
{
    if s.len() > 0 && is_space(s.last()) {
        trim_end_spec(s.drop_last())
    } else {
        s
    }
}

/// `s` with leading and trailing whitespace removed.
pub open spec fn trimmed(s: Seq<char>) -> Seq<char> {
    trim_end_spec(trim_start_spec(s))
}

/// `s` equals the keyword spelt lowercase `lo` / uppercase `up`, matching
/// each position against either case.
pub open spec fn matches_ci(s: Seq<char>, lo: Seq<char>, up: Seq<char>) -> bool {
    s.len() == lo.len() && forall|i: int|
        0 <= i < s.len() ==> ((#[trigger] s[i]) == lo[i] || s[i] == up[i])
}

/// Modifier resolution for a named pipeline: "secondary"/"15m" use the
/// secondary depth, "tertiary"/"1h" the tertiary depth,
/// "consensus"/"consensus_min" the worse of primary and secondary, anything
/// else the primary depth.  Names are trimmed and matched case-insensitively.
pub open spec fn source_modifier_spec(
    src: Seq<char>,
    primary: int,
    secondary: int,
    tertiary: int,
) -> int {
    let t = trimmed(src);
    if matches_ci(t, "secondary"@, "SECONDARY"@) || matches_ci(t, "15m"@, "15M"@) {
        confidence_modifier_spec(secondary)
    } else if matches_ci(t, "tertiary"@, "TERTIARY"@) || matches_ci(t, "1h"@, "1H"@) {
        confidence_modifier_spec(tertiary)
    } else if matches_ci(t, "consensus"@, "CONSENSUS"@) || matches_ci(
        t,
        "consensus_min"@,
        "CONSENSUS_MIN"@,
    ) {
        min_int(confidence_modifier_spec(primary), confidence_modifier_spec(secondary))
    } else {
        confidence_modifier_spec(primary)
    }
}

/// Scanning `a` leading spaces (stopping at the first non-space) is exactly
/// what dropping them one at a time computes.
proof fn lemma_trim_start_range(s: Seq<char>, a: int)
    requires
        0 <= a <= s.len(),
        forall|j: int| 0 <= j < a ==> is_space(#[trigger] s[j]),
        a < s.len() ==> !is_space(s[a]),
    ensures
        trim_start_spec(s) == s.subrange(a, s.len() as int),
    decreases a,
{
    if a == 0 {
        assert(s.subrange(0, s.len() as int) =~= s);
    } else {
        let s1 = s.drop_first();
        assert(s1 =~= s.subrange(1, s.len() as int));
        lemma_trim_start_range(s1, a - 1);
        assert(s1.subrange(a - 1, s1.len() as int) =~= s.subrange(a, s.len() as int));
    }
}

/// Scanning `s.len() - b` trailing spaces (stopping at the last non-space)
/// is exactly what dropping them one at a time computes.
proof fn lemma_trim_end_range(s: Seq<char>, b: int)
    requires
        0 <= b <= s.len(),
        forall|j: int| b <= j < s.len() ==> is_space(#[trigger] s[j]),
        b > 0 ==> !is_space(s[b - 1]),
    ensures
        trim_end_spec(s) == s.subrange(0, b),
    decreases s.len() - b,
{
    if b == s.len() {
        if s.len() == 0 {
            assert(s.subrange(0, 0) =~= s);
        } else {
            assert(s.subrange(0, s.len() as int) =~= s);
        }
    } else {
        let s1 = s.drop_last();
        assert(s1 =~= s.subrange(0, s.len() - 1));
        lemma_trim_end_range(s1, b);
        assert(s1.subrange(0, b) =~= s.subrange(0, b));
    }
}

fn char_is_space(c: char) -> (b: bool)
    ensures
        b == is_space(c),
{
    c == ' ' || c == '\t' || c == '\n' || c == '\u{000b}' || c == '\u{000c}' || c == '\r'
        || c == '\u{0085}' || c == '\u{00a0}' || c == '\u{1680}' || c == '\u{2000}'
        || c == '\u{2001}' || c == '\u{2002}' || c == '\u{2003}' || c == '\u{2004}'
        || c == '\u{2005}' || c == '\u{2006}' || c == '\u{2007}' || c == '\u{2008}'
        || c == '\u{2009}' || c == '\u{200a}' || c == '\u{2028}' || c == '\u{2029}'
        || c == '\u{202f}' || c == '\u{205f}' || c == '\u{3000}'
}

/// Character range of `s` with surrounding whitespace removed.
fn trim_bounds(s: &str) -> (r: (usize, usize))
    ensures
        r.0 <= r.1 <= s@.len(),
        s@.subrange(r.0 as int, r.1 as int) == trimmed(s@),
{
    let n = s.unicode_len();
    let mut a: usize = 0;
    while a < n && char_is_space(s.get_char(a))
        invariant
            0 <= a <= n == s@.len(),
            forall|j: int| 0 <= j < a ==> is_space(#[trigger] s@[j]),
        decreases n - a,
    {
        a = a + 1;
    }
    let mut b: usize = n;
    while b > a && char_is_space(s.get_char(b - 1))
        invariant
            a <= b <= n == s@.len(),
            forall|j: int| b <= j < n ==> is_space(#[trigger] s@[j]),
        decreases b,
    {
        b = b - 1;
    }
    proof {
        lemma_trim_start_range(s@, a as int);
        let s1 = s@.subrange(a as int, n as int);
        lemma_trim_end_range(s1, b - a);
        assert(s1.subrange(0, b - a) =~= s@.subrange(a as int, b as int));
    }
    (a, b)
}

/// Case-insensitive comparison of `s[start..end]` against a keyword given in
/// both cases.
fn region_matches_ci(s: &str, start: usize, end: usize, lo: &str, up: &str) -> (b: bool)
    requires
        start <= end <= s@.len(),
        lo@.len() == up@.len(),
    ensures
        b == matches_ci(s@.subrange(start as int, end as int), lo@, up@),
{
    let m = lo.unicode_len();
    if end - start != m {
        return false;
    }
    let mut i: usize = 0;
    while i < m
        invariant
            0 <= i <= m == lo@.len() == up@.len(),
            end - start == m,
            start <= end <= s@.len(),
            forall|j: int|
                0 <= j < i ==> ((#[trigger] s@[start + j]) == lo@[j] || s@[start + j] == up@[j]),
        decreases m - i,
    {
        let c = s.get_char(start + i);
        let cl = lo.get_char(i);
        let cu = up.get_char(i);
        if !(c == cl || c == cu) {
            proof {
                assert(s@.subrange(start as int, end as int)[i as int] == s@[start + i]);
            }
            return false;
        }
        i = i + 1;
    }
    proof {
        assert forall|j: int| 0 <= j < m implies (#[trigger] s@.subrange(
            start as int,
            end as int,
        )[j] == lo@[j] || s@.subrange(start as int, end as int)[j] == up@[j]) by {
            assert(s@.subrange(start as int, end as int)[j] == s@[start + j]);
        }
    }
    true
}

/// Fixed-point confidence modifier for a named pipeline: "secondary" (or
/// "15m") reads the secondary depth, "tertiary" (or "1h") the tertiary
/// depth, "consensus" (or "consensus_min") the worse of primary and
/// secondary, and any other name the primary depth.
pub fn confidence_modifier_for_source(
    source: &str,
    primary_depth: i32,
    secondary_depth: i32,
    tertiary_depth: i32,
) -> (m: i64)
    ensures
        m == source_modifier_spec(
            source@,
            primary_depth as int,
            secondary_depth as int,
            tertiary_depth as int,
        ),
{
    proof {
        reveal_strlit("secondary");
        reveal_strlit("SECONDARY");
        reveal_strlit("15m");
        reveal_strlit("15M");
        reveal_strlit("tertiary");
        reveal_strlit("TERTIARY");
        reveal_strlit("1h");
        reveal_strlit("1H");
        reveal_strlit("consensus");
        reveal_strlit("CONSENSUS");
        reveal_strlit("consensus_min");
        reveal_strlit("CONSENSUS_MIN");
    }
    let (a, b) = trim_bounds(source);
    if region_matches_ci(source, a, b, "secondary", "SECONDARY") || region_matches_ci(
        source,
        a,
        b,
        "15m",
        "15M",
    ) {
        confidence_modifier_for_depth(secondary_depth)
    } else if region_matches_ci(source, a, b, "tertiary", "TERTIARY") || region_matches_ci(
        source,
        a,
        b,
        "1h",
        "1H",
    ) {
        confidence_modifier_for_depth(tertiary_depth)
    } else if region_matches_ci(source, a, b, "consensus", "CONSENSUS") || region_matches_ci(
        source,
        a,
        b,
        "consensus_min",
        "CONSENSUS_MIN",
    ) {
        let p = confidence_modifier_for_depth(primary_depth);
        let s = confidence_modifier_for_depth(secondary_depth);
        if p <= s {
            p
        } else {
            s
        }
    } else {
        confidence_modifier_for_depth(primary_depth)
    }
}

/// Detector configuration after sanitization: three states and every knob at
/// or above its floor.
pub struct HmmConfig {
    pub n_states: usize,
    pub n_iter: usize,
    pub inference_window: usize,
    pub confidence_threshold: i64,
    pub retrain_interval_sec: i64,
    pub min_train_samples: usize,
    pub bias_gain: i64,
    pub blend_with_trend: i64,
}

/// Every configuration the detector holds satisfies these floors.
pub open spec fn config_wf(c: HmmConfig) -> bool {
    &&& c.n_states == 3
    &&& c.n_iter >= 10
    &&& c.inference_window >= 5
    &&& c.confidence_threshold >= 0
    &&& c.retrain_interval_sec >= 1
    &&& c.min_train_samples >= 5
    &&& c.bias_gain >= 0
    &&& 0 <= c.blend_with_trend <= SCALE
}

impl Default for HmmConfig {
    /// The default configuration: 3 states, 100 iterations, a 50-row
    /// inference window, a 0.15 confidence threshold, daily retraining, 500
    /// minimum training samples, unit bias gain and an (unused) 0.5 trend
    /// blend.
    fn default() -> (c: Self)
        ensures
            c.n_states == 3,
            c.n_iter == 100,
            c.inference_window == 50,
            c.confidence_threshold == 150_000_000,
            c.retrain_interval_sec == 86400,
            c.min_train_samples == 500,
            c.bias_gain == SCALE,
            c.blend_with_trend == 500_000_000,
            config_wf(c),
    {
        HmmConfig {
            n_states: 3,
            n_iter: 100,
            inference_window: 50,
            confidence_threshold: 150_000_000,
            retrain_interval_sec: 86400,
            min_train_samples: 500,
            bias_gain: SCALE,
            blend_with_trend: 500_000_000,
        }
    }
}

/// The sanitization rule applied to a requested configuration.
pub open spec fn sanitize_config_spec(c: HmmConfig) -> HmmConfig {
    HmmConfig {
        n_states: 3,
        n_iter: max_int(c.n_iter as int, 10) as usize,
        inference_window: max_int(c.inference_window as int, 5) as usize,
        confidence_threshold: max_int(c.confidence_threshold as int, 0) as i64,
        retrain_interval_sec: max_int(c.retrain_interval_sec as int, 1) as i64,
        min_train_samples: max_int(c.min_train_samples as int, 5) as usize,
        bias_gain: max_int(c.bias_gain as int, 0) as i64,
        blend_with_trend: clamp_spec(c.blend_with_trend as int, 0, SCALE as int) as i64,
    }
}

impl HmmConfig {
    /// Force a requested configuration into range: the state count is pinned
    /// at 3, each knob is floored (or, for the trend blend, clamped) as the
    /// configuration schema prescribes.
    pub fn sanitized(self) -> (c: Self)
        ensures
            c == sanitize_config_spec(self),
            config_wf(c),
    {
        HmmConfig {
            n_states: 3,
            n_iter: if self.n_iter < 10 {
                10
            } else {
                self.n_iter
            },
            inference_window: if self.inference_window < 5 {
                5
            } else {
                self.inference_window
            },
            confidence_threshold: if self.confidence_threshold < 0 {
                0
            } else {
                self.confidence_threshold
            },
            retrain_interval_sec: if self.retrain_interval_sec < 1 {
                1
            } else {
                self.retrain_interval_sec
            },
            min_train_samples: if self.min_train_samples < 5 {
                5
            } else {
                self.min_train_samples
            },
            bias_gain: if self.bias_gain < 0 {
                0
            } else {
                self.bias_gain
            },
            blend_with_trend: clamp(self.blend_with_trend, 0, SCALE),
        }
    }
}

/// Argmax over three labelled probabilities, ties broken toward the
/// higher-index (more bullish) label.
pub open spec fn argmax3_spec(a: int, b: int, c: int) -> int {
    if c >= b && c >= a {
        2
    } else if b >= a {
        1
    } else {
        0
    }
}

pub open spec fn max3(a: int, b: int, c: int) -> int {
    max_int(a, max_int(b, c))
}

/// The middle value of three: what remains largest once one copy of the
/// maximum is removed.
pub open spec fn median3(a: int, b: int, c: int) -> int {
    max_int(min_int(a, b), min_int(max_int(a, b), c))
}

/// Margin between the best and second-best of three probabilities.
pub open spec fn margin3(a: int, b: int, c: int) -> int {
    max3(a, b, c) - median3(a, b, c)
}

/// Rounding to four decimal places (ticks of 100 000), half away from zero.
pub open spec fn round4_spec(v: int) -> int {
    if v >= 0 {
        ((v + 50_000) / 100_000) * 100_000
    } else {
        -(((-v + 50_000) / 100_000) * 100_000)
    }
}

/// Mass that the raw state probabilities contribute to label `l` under the
/// label map `lm`.
pub open spec fn labeled_at(lm: [usize; 3], raw: Seq<i64>, l: int) -> int {
    (if lm[0] == l {
        raw[0] as int
    } else {
        0
    }) + (if lm[1] == l {
        raw[1] as int
    } else {
        0
    }) + (if lm[2] == l {
        raw[2] as int
    } else {
        0
    })
}

/// Labelled probability `k`: the remapped masses normalized to `SCALE`
/// (the last share carrying the division remainder, so the three always
/// total `SCALE`), with the ranging-biased fallback when all mass vanishes.
pub open spec fn labeled_prob_at(lm: [usize; 3], raw: Seq<i64>, k: int) -> int {
    let l0 = labeled_at(lm, raw, 0);
    let l1 = labeled_at(lm, raw, 1);
    let l2 = labeled_at(lm, raw, 2);
    let s = l0 + l1 + l2;
    if s <= 0 {
        if k == 1 {
            SCALE as int
        } else {
            0
        }
    } else {
        if k == 0 {
            l0 * SCALE / s
        } else if k == 1 {
            l1 * SCALE / s
        } else {
            SCALE - l0 * SCALE / s - l1 * SCALE / s
        }
    }
}

/// The raw posterior entry `k` that inference hands to the relabelling
/// stage: the model's forward-filtered posterior over a non-empty window,
/// or the ranging-biased default when no trained model is present.
pub open spec fn raw_posterior_at(m: Option<GaussianHmm>, e: Seq<[i64; 3]>, k: int) -> i64 {
    match m {
        Some(mm) => {
            if mm.trained && e.len() > 0 {
                crate::hmm::fwd_alpha_at(mm, e, e.len() - 1, k) as i64
            } else if k == 1 {
                SCALE as i64
            } else {
                0
            }
        },
        None => {
            if k == 1 {
                SCALE as i64
            } else {
                0
            }
        },
    }
}

fn ranging_default_posterior() -> (p: Vec<i64>)
    ensures
        p.len() == 3,
        p@[0] == 0,
        p@[1] == SCALE,
        p@[2] == 0,
{
    let mut p: Vec<i64> = Vec::new();
    p.push(0);
    p.push(SCALE);
    p.push(0);
    p
}

/// The bias signal before rounding: zero below the confidence threshold,
/// otherwise the bullish-minus-bearish mass amplified by the gain and clamped
/// to one unit either way.
pub open spec fn bias_spec(p0: int, p2: int, margin: int, threshold: int, gain: int) -> int {
    if margin < threshold {
        0
    } else {
        clamp_spec(div_trunc((p2 - p0) * gain, SCALE as int), -(SCALE as int), SCALE as int)
    }
}

fn argmax3(v: [i64; 3]) -> (r: usize)
    ensures
        r == argmax3_spec(v[0] as int, v[1] as int, v[2] as int),
        r < 3,
{
    if v[2] >= v[1] && v[2] >= v[0] {
        2
    } else if v[1] >= v[0] {
        1
    } else {
        0
    }
}

fn top2_margin(p: [i64; 3]) -> (m: i64)
    requires
        0 <= p[0] <= SCALE,
        0 <= p[1] <= SCALE,
        0 <= p[2] <= SCALE,
    ensures
        m == margin3(p[0] as int, p[1] as int, p[2] as int),
        0 <= m <= SCALE,
{
    let mn01: i64 = if p[0] <= p[1] {
        p[0]
    } else {
        p[1]
    };
    let mx01: i64 = if p[0] <= p[1] {
        p[1]
    } else {
        p[0]
    };
    let hi: i64 = if mx01 >= p[2] {
        mx01
    } else {
        p[2]
    };
    let mn_mx01_p2: i64 = if mx01 <= p[2] {
        mx01
    } else {
        p[2]
    };
    let med: i64 = if mn01 >= mn_mx01_p2 {
        mn01
    } else {
        mn_mx01_p2
    };
    hi - med
}

fn round4(v: i64) -> (r: i64)
    requires
        -SCALE <= v <= SCALE,
    ensures
        r == round4_spec(v as int),
        -SCALE <= r <= SCALE,
{
    if v >= 0 {
        let q: i64 = (v + 50_000) / 100_000;
        q * 100_000
    } else {
        let q: i64 = ((-v) + 50_000) / 100_000;
        -(q * 100_000)
    }
}

fn scale_gain(d: i64, gain: i64) -> (r: i64)
    requires
        -SCALE <= d <= SCALE,
        gain >= 0,
    ensures
        r == div_trunc(d as int * gain as int, SCALE as int),
{
    proof {
        assert(-(SCALE as int * gain as int) <= d as int * gain as int <= SCALE as int
            * gain as int) by (nonlinear_arith)
            requires
                -(SCALE as int) <= d as int <= SCALE as int,
                gain as int >= 0,
        ;
        crate::lemma_div_trunc_bound(d as int * gain as int, SCALE as int, gain as int);
    }
    ((d as i128) * (gain as i128) / (SCALE as i128)) as i64
}

fn sanitize_transition_exec(t: TertiaryTransition) -> (r: TertiaryTransition)
    ensures
        r == sanitize_transition(t),
{
    TertiaryTransition {
        from_regime: if 0 <= t.from_regime && t.from_regime <= 2 {
            t.from_regime
        } else {
            1
        },
        to_regime: if 0 <= t.to_regime && t.to_regime <= 2 {
            t.to_regime
        } else {
            1
        },
        confirmation_count: if t.confirmation_count < 0 {
            0
        } else {
            t.confirmation_count
        },
        confirmed: t.confirmed,
        changed_at: t.changed_at,
        transition_age_sec: if t.transition_age_sec < 0 {
            0
        } else {
            t.transition_age_sec
        },
    }
}

/// A transition record whose fields are in range; the detector's own updates
/// only produce such records.
pub open spec fn transition_valid(t: TertiaryTransition) -> bool {
    &&& valid_regime(t.from_regime as int)
    &&& valid_regime(t.to_regime as int)
    &&& t.confirmation_count >= 0
    &&& t.transition_age_sec >= 0
}

/// A flat snapshot of the detector's bookkeeping.  Every field is optional:
/// consumers of the persisted form treat missing entries as "keep the current
/// value", so restoration is lenient by construction.  The fitted model's
/// parameters are deliberately absent.
pub struct DetectorSnapshot {
    pub regime_state: Option<RegimeState>,
    pub last_train_ts: Option<i64>,
    pub trained: Option<bool>,
    pub training_depth: Option<i32>,
    pub quality_tier: Option<String>,
    pub confidence_modifier: Option<i64>,
    pub tertiary_transition: Option<TertiaryTransition>,
}

/// `s` records exactly the bookkeeping of detector `d`.
pub open spec fn is_snapshot_of(s: DetectorSnapshot, d: RegimeDetector) -> bool {
    &&& match s.regime_state {
        Some(rs) => state_eq(rs, d.state),
        None => false,
    }
    &&& s.last_train_ts == Some(d._last_train_ts)
    &&& s.trained == Some(d._trained)
    &&& s.training_depth == Some(d.training_depth)
    &&& match s.quality_tier {
        Some(q) => q@ == quality_tier_spec(d.training_depth as int),
        None => false,
    }
    &&& s.confidence_modifier == Some(confidence_modifier_spec(d.training_depth as int) as i64)
    &&& s.tertiary_transition == Some(d.tertiary_transition)
}

/// `after` is `before` with snapshot `s` restored into it: present fields
/// replace the current values (the transition record sanitized, the training
/// depth floored at zero), absent fields keep them, and the model, label map
/// and configuration are untouched.
pub open spec fn is_restoration(
    before: RegimeDetector,
    s: DetectorSnapshot,
    after: RegimeDetector,
) -> bool {
    &&& match s.regime_state {
        Some(rs) => state_eq(after.state, rs),
        None => state_eq(after.state, before.state),
    }
    &&& after._last_train_ts == (match s.last_train_ts {
        Some(v) => v,
        None => before._last_train_ts,
    })
    &&& after._trained == (match s.trained {
        Some(v) => v,
        None => before._trained,
    })
    &&& after.training_depth == max_int(
        (match s.training_depth {
            Some(v) => v,
            None => before.training_depth,
        }) as int,
        0,
    )
    &&& after.tertiary_transition == (match s.tertiary_transition {
        Some(t) => sanitize_transition(t),
        None => before.tertiary_transition,
    })
    &&& after.model == before.model
    &&& after.label_map == before.label_map
    &&& after.cfg == before.cfg
}

/// The stateful regime detector: configuration, the fitted model (if any),
/// the semantic label map, the last labelled state and the
/// transition-confirmation record.
pub struct RegimeDetector {
    pub state: RegimeState,
    pub _trained: bool,
    pub _last_train_ts: i64,
    pub training_depth: i32,
    pub tertiary_transition: TertiaryTransition,
    pub cfg: HmmConfig,
    pub model: Option<GaussianHmm>,
    pub label_map: [usize; 3],
}

impl RegimeDetector {
    /// Invariant of every detector this module hands out.
    pub open spec fn wf(self) -> bool {
        &&& config_wf(self.cfg)
        &&& self.label_map[0] < 3
        &&& self.label_map[1] < 3
        &&& self.label_map[2] < 3
        &&& self.training_depth >= 0
        &&& match self.model {
            Some(m) => m.wf(),
            None => true,
        }
    }

    /// A fresh detector: ranging state with the default `[0, 1, 0]`
    /// distribution, untrained, identity label map, no model, and the given
    /// configuration sanitized (or the defaults).
    pub fn new(config: Option<HmmConfig>) -> (d: Self)
        ensures
            d.wf(),
            d.cfg == (match config {
                Some(c) => sanitize_config_spec(c),
                None => sanitize_config_spec(
                    HmmConfig {
                        n_states: 3,
                        n_iter: 100,
                        inference_window: 50,
                        confidence_threshold: 150_000_000,
                        retrain_interval_sec: 86400,
                        min_train_samples: 500,
                        bias_gain: SCALE as i64,
                        blend_with_trend: 500_000_000,
                    },
                ),
            }),
            d.state.regime == 1,
            d.state.probabilities@ == seq![0i64, SCALE as i64, 0i64],
            d.state.confidence == 0,
            d.state.bias_signal == 0,
            d.state.last_update_ts == 0,
            d.state.observation_count == 0,
            !d._trained,
            d._last_train_ts == 0,
            d.training_depth == 0,
            d.tertiary_transition.from_regime == 1,
            d.tertiary_transition.to_regime == 1,
            d.tertiary_transition.confirmation_count == 0,
            !d.tertiary_transition.confirmed,
            d.tertiary_transition.changed_at == 0,
            d.tertiary_transition.transition_age_sec == 0,
            d.model is None,
            d.label_map[0] == 0 && d.label_map[1] == 1 && d.label_map[2] == 2,
    {
        let cfg = match config {
            Some(c) => c.sanitized(),
            None => {
                let c: HmmConfig = Default::default();
                c.sanitized()
            },
        };
        let mut probs: Vec<i64> = Vec::new();
        probs.push(0);
        probs.push(SCALE);
        probs.push(0);
        proof {
            assert(probs@ =~= seq![0i64, SCALE as i64, 0i64]);
        }
        RegimeDetector {
            state: RegimeState {
                regime: 1,
                probabilities: probs,
                confidence: 0,
                bias_signal: 0,
                last_update_ts: 0,
                observation_count: 0,
            },
            _trained: false,
            _last_train_ts: 0,
            training_depth: 0,
            tertiary_transition: TertiaryTransition {
                from_regime: 1,
                to_regime: 1,
                confirmation_count: 0,
                confirmed: false,
                changed_at: 0,
                transition_age_sec: 0,
            },
            cfg,
            model: None,
            label_map: [0, 1, 2],
        }
    }

    /// Gate of a training run: records how many feature rows were available
    /// and declines (marking the detector untrained) when they fall short of
    /// the configured minimum.  Declining is not a fault: callers retry once
    /// more history has accumulated.
    pub fn begin_train(&mut self, n_obs: usize) -> (accepted: bool)
        requires
            old(self).wf(),
        ensures
            final(self).wf(),
            accepted <==> n_obs >= old(self).cfg.min_train_samples,
            final(self).training_depth == min_int(n_obs as int, i32::MAX as int),
            final(self)._trained == (if accepted {
                old(self)._trained
            } else {
                false
            }),
            state_eq(final(self).state, old(self).state),
            final(self)._last_train_ts == old(self)._last_train_ts,
            final(self).tertiary_transition == old(self).tertiary_transition,
            final(self).cfg == old(self).cfg,
            final(self).model == old(self).model,
            final(self).label_map == old(self).label_map,
    {
        self.training_depth = if n_obs >= 0x7fff_ffff {
            i32::MAX
        } else {
            n_obs as i32
        };
        if n_obs < self.cfg.min_train_samples {
            self._trained = false;
            return false;
        }
        true
    }

    /// Install a freshly fitted model: derive the label map from the second
    /// feature (the spread), record the training depth, stamp the training
    /// time and mark the detector trained.
    pub fn complete_train(&mut self, model: GaussianHmm, now: i64)
        requires
            old(self).wf(),
            model.wf(),
            model.trained,
        ensures
            final(self).wf(),
            final(self)._trained,
            final(self)._last_train_ts == now,
            final(self).model == Some(model),
            final(self).training_depth == min_int(model.training_depth as int, i32::MAX as int),
            ({
                let o = crate::hmm::stable_order3(
                    model.means[0][1] as int,
                    model.means[1][1] as int,
                    model.means[2][1] as int,
                );
                final(self).label_map[o.0] == 0 && final(self).label_map[o.1] == 1
                    && final(self).label_map[o.2] == 2
            }),
            final(self).state.observation_count == min_int(
                model.training_depth as int,
                usize::MAX as int,
            ),
            final(self).state.regime == old(self).state.regime,
            final(self).state.probabilities@ == old(self).state.probabilities@,
            final(self).state.confidence == old(self).state.confidence,
            final(self).state.bias_signal == old(self).state.bias_signal,
            final(self).state.last_update_ts == old(self).state.last_update_ts,
            final(self).tertiary_transition == old(self).tertiary_transition,
            final(self).cfg == old(self).cfg,
    {
        let lm = model.label_map_by_feature(1);
        self.label_map = match lm {
            Some(v) => [v[0], v[1], v[2]],
            None => [0, 1, 2],
        };
        self.training_depth = if model.training_depth() >= 0x7fff_ffff {
            i32::MAX
        } else {
            model.training_depth() as i32
        };
        self.state.observation_count = model.training_depth();
        self._trained = true;
        self._last_train_ts = now;
        self.model = Some(model);
    }

    /// The trailing feature rows that inference runs on: the last
    /// `inference_window` rows, or all of them if fewer are available.
    pub fn inference_tail(&self, rows: &Vec<[i64; 4]>) -> (t: Vec<[i64; 4]>)
        ensures
            t@ == rows@.subrange(
                max_int(rows@.len() - self.cfg.inference_window, 0),
                rows@.len() as int,
            ),
    {
        let start: usize = if rows.len() > self.cfg.inference_window {
            rows.len() - self.cfg.inference_window
        } else {
            0
        };
        let mut t: Vec<[i64; 4]> = Vec::new();
        let mut i: usize = start;
        while i < rows.len()
            invariant
                start <= i <= rows@.len(),
                start == max_int(rows@.len() - self.cfg.inference_window, 0),
                t@ == rows@.subrange(start as int, i as int),
            decreases rows.len() - i,
        {
            t.push(rows[i]);
            proof {
                assert(t@ =~= rows@.subrange(start as int, i + 1 as int));
            }
            i = i + 1;
        }
        t
    }

    fn remap_probs(&self, raw_probs: &Vec<i64>) -> (labeled: [i64; 3])
        requires
            self.wf(),
            raw_probs@.len() == 3,
            forall|k: int| 0 <= k < 3 ==> 0 <= #[trigger] raw_probs@[k] <= SCALE,
        ensures
            labeled[0] == labeled_at(self.label_map, raw_probs@, 0),
            labeled[1] == labeled_at(self.label_map, raw_probs@, 1),
            labeled[2] == labeled_at(self.label_map, raw_probs@, 2),
            0 <= labeled[0] <= 3 * SCALE,
            0 <= labeled[1] <= 3 * SCALE,
            0 <= labeled[2] <= 3 * SCALE,
    {
        let mut l0: i64 = 0;
        let mut l1: i64 = 0;
        let mut l2: i64 = 0;
        let lab0 = self.label_map[0];
        if lab0 == 0 {
            l0 = l0 + raw_probs[0];
        } else if lab0 == 1 {
            l1 = l1 + raw_probs[0];
        } else {
            l2 = l2 + raw_probs[0];
        }
        let lab1 = self.label_map[1];
        if lab1 == 0 {
            l0 = l0 + raw_probs[1];
        } else if lab1 == 1 {
            l1 = l1 + raw_probs[1];
        } else {
            l2 = l2 + raw_probs[1];
        }
        let lab2 = self.label_map[2];
        if lab2 == 0 {
            l0 = l0 + raw_probs[2];
        } else if lab2 == 1 {
            l1 = l1 + raw_probs[2];
        } else {
            l2 = l2 + raw_probs[2];
        }
        [l0, l1, l2]
    }

    /// Fold a raw state posterior into the detector: remap it through the
    /// label map, renormalize, derive the regime (argmax, ties toward
    /// bullish), the confidence margin and the bias signal, replace the
    /// stored state wholesale and advance the transition-confirmation
    /// machine.  An untrained detector or an empty window is a no-op that
    /// returns the stored state.
    pub fn update(&mut self, raw_probs: &Vec<i64>, window_len: usize, now: i64) -> (st:
        RegimeState)
        requires
            old(self).wf(),
            raw_probs@.len() == 3,
            forall|k: int| 0 <= k < 3 ==> 0 <= #[trigger] raw_probs@[k] <= SCALE,
        ensures
            final(self).wf(),
            state_eq(st, final(self).state),
            (!old(self)._trained || window_len == 0) ==> ({
                &&& state_eq(final(self).state, old(self).state)
                &&& final(self).tertiary_transition == old(self).tertiary_transition
                &&& final(self)._trained == old(self)._trained
                &&& final(self)._last_train_ts == old(self)._last_train_ts
                &&& final(self).training_depth == old(self).training_depth
                &&& final(self).cfg == old(self).cfg
                &&& final(self).model == old(self).model
                &&& final(self).label_map == old(self).label_map
            }),
            (old(self)._trained && window_len > 0) ==> ({
                let lm = old(self).label_map;
                let p0 = labeled_prob_at(lm, raw_probs@, 0);
                let p1 = labeled_prob_at(lm, raw_probs@, 1);
                let p2 = labeled_prob_at(lm, raw_probs@, 2);
                let margin = margin3(p0, p1, p2);
                let regime = argmax3_spec(p0, p1, p2);
                &&& final(self).state.regime == regime
                &&& final(self).state.probabilities@.len() == 3
                &&& final(self).state.probabilities@[0] == p0
                &&& final(self).state.probabilities@[1] == p1
                &&& final(self).state.probabilities@[2] == p2
                &&& p0 + p1 + p2 == SCALE
                &&& 0 <= p0 && 0 <= p1 && 0 <= p2
                &&& final(self).state.confidence == round4_spec(margin)
                &&& final(self).state.bias_signal == round4_spec(
                    bias_spec(
                        p0,
                        p2,
                        margin,
                        old(self).cfg.confidence_threshold as int,
                        old(self).cfg.bias_gain as int,
                    ),
                )
                &&& final(self).state.last_update_ts == now
                &&& final(self).state.observation_count == window_len
                &&& final(self).tertiary_transition == advance_spec(
                    old(self).tertiary_transition,
                    regime,
                    now as int,
                )
                &&& final(self)._trained == old(self)._trained
                &&& final(self)._last_train_ts == old(self)._last_train_ts
                &&& final(self).training_depth == old(self).training_depth
                &&& final(self).cfg == old(self).cfg
                &&& final(self).model == old(self).model
                &&& final(self).label_map == old(self).label_map
            }),
    {
        if !self._trained || window_len == 0 {
            return self.state.clone();
        }
        let labeled = self.remap_probs(raw_probs);
        let p = normalize_probs(labeled);
        proof {
            assert(crate::math::baum_welch::pos_part(labeled[0] as int) == labeled[0] as int);
            assert(crate::math::baum_welch::pos_part(labeled[1] as int) == labeled[1] as int);
            assert(crate::math::baum_welch::pos_part(labeled[2] as int) == labeled[2] as int);
        }
        let regime_idx = argmax3(p);
        let regime: i32 = regime_idx as i32;
        let confidence = top2_margin(p);
        let bias: i64 = if confidence < self.cfg.confidence_threshold {
            0
        } else {
            clamp(scale_gain(p[2] - p[0], self.cfg.bias_gain), -SCALE, SCALE)
        };
        let confidence_r = round4(confidence);
        let bias_r = round4(bias);
        let mut probs: Vec<i64> = Vec::new();
        probs.push(p[0]);
        probs.push(p[1]);
        probs.push(p[2]);
        self.state = RegimeState {
            regime,
            probabilities: probs,
            confidence: confidence_r,
            bias_signal: bias_r,
            last_update_ts: now,
            observation_count: window_len,
        };
        self.advance_tertiary_transition(regime, now);
        self.state.clone()
    }

    /// Full inference step from precomputed emission rows: the stored model
    /// (when present and trained) turns them into the forward-filtered
    /// posterior of the final step, the ranging-biased default stands in
    /// otherwise, and the posterior is folded into the detector exactly as
    /// [`RegimeDetector::update`] does.
    pub fn update_from_emissions(
        &mut self,
        emissions: &Vec<[i64; 3]>,
        window_len: usize,
        now: i64,
    ) -> (st: RegimeState)
        requires
            old(self).wf(),
            forall|t: int|
                0 <= t < emissions@.len() ==> crate::hmm::emission_row_ok(
                    #[trigger] emissions@[t],
                ),
        ensures
            final(self).wf(),
            state_eq(st, final(self).state),
            (!old(self)._trained || window_len == 0) ==> ({
                &&& state_eq(final(self).state, old(self).state)
                &&& final(self).tertiary_transition == old(self).tertiary_transition
                &&& final(self).model == old(self).model
            }),
            (old(self)._trained && window_len > 0) ==> ({
                let q = Seq::new(3, |k: int| raw_posterior_at(old(self).model, emissions@, k));
                let lm = old(self).label_map;
                let p0 = labeled_prob_at(lm, q, 0);
                let p1 = labeled_prob_at(lm, q, 1);
                let p2 = labeled_prob_at(lm, q, 2);
                let margin = margin3(p0, p1, p2);
                let regime = argmax3_spec(p0, p1, p2);
                &&& final(self).state.regime == regime
                &&& final(self).state.probabilities@ == seq![
                    p0 as i64,
                    p1 as i64,
                    p2 as i64,
                ]
                &&& final(self).state.confidence == round4_spec(margin)
                &&& final(self).state.bias_signal == round4_spec(
                    bias_spec(
                        p0,
                        p2,
                        margin,
                        old(self).cfg.confidence_threshold as int,
                        old(self).cfg.bias_gain as int,
                    ),
                )
                &&& final(self).state.last_update_ts == now
                &&& final(self).state.observation_count == window_len
                &&& final(self).tertiary_transition == advance_spec(
                    old(self).tertiary_transition,
                    regime,
                    now as int,
                )
                &&& final(self).model == old(self).model
            }),
    {
        let raw: Vec<i64> = match &self.model {
            Some(m) => {
                if m.is_trained() && emissions.len() > 0 {
                    m.predict_last_proba(emissions)
                } else {
                    ranging_default_posterior()
                }
            },
            None => ranging_default_posterior(),
        };
        proof {
            let q = Seq::new(3, |k: int| raw_posterior_at(self.model, emissions@, k));
            assert(raw@[0] == q[0] && raw@[1] == q[1] && raw@[2] == q[2]);
            assert(q =~= raw@);
        }
        let st = self.update(&raw, window_len, now);
        proof {
            if old(self)._trained && window_len > 0 {
                let q = Seq::new(3, |k: int| raw_posterior_at(old(self).model, emissions@, k));
                let lm = old(self).label_map;
                assert(self.state.probabilities@ =~= seq![
                    labeled_prob_at(lm, q, 0) as i64,
                    labeled_prob_at(lm, q, 1) as i64,
                    labeled_prob_at(lm, q, 2) as i64,
                ]);
            }
        }
        st
    }

    /// One step of the transition-confirmation machine on the stored record.
    pub fn advance_tertiary_transition(&mut self, regime: i32, now: i64)
        ensures
            final(self).tertiary_transition == advance_spec(
                old(self).tertiary_transition,
                regime as int,
                now as int,
            ),
            state_eq(final(self).state, old(self).state),
            final(self)._trained == old(self)._trained,
            final(self)._last_train_ts == old(self)._last_train_ts,
            final(self).training_depth == old(self).training_depth,
            final(self).cfg == old(self).cfg,
            final(self).model == old(self).model,
            final(self).label_map == old(self).label_map,
    {
        let norm: i32 = if 0 <= regime && regime <= 2 {
            regime
        } else {
            1
        };
        let t = self.tertiary_transition;
        if t.changed_at <= 0 {
            self.tertiary_transition = TertiaryTransition {
                from_regime: norm,
                to_regime: norm,
                confirmation_count: 1,
                confirmed: false,
                changed_at: now,
                transition_age_sec: 0,
            };
        } else if norm != t.to_regime {
            self.tertiary_transition = TertiaryTransition {
                from_regime: t.to_regime,
                to_regime: norm,
                confirmation_count: 1,
                confirmed: false,
                changed_at: now,
                transition_age_sec: 0,
            };
        } else {
            let bumped: i32 = if t.confirmation_count == i32::MAX {
                i32::MAX
            } else {
                t.confirmation_count + 1
            };
            let count: i32 = if bumped < 1 {
                1
            } else {
                bumped
            };
            let age128: i128 = now as i128 - t.changed_at as i128;
            let age: i64 = if age128 < 0 {
                0
            } else if age128 > i64::MAX as i128 {
                i64::MAX
            } else {
                age128 as i64
            };
            self.tertiary_transition = TertiaryTransition {
                from_regime: t.from_regime,
                to_regime: t.to_regime,
                confirmation_count: count,
                confirmed: t.from_regime != t.to_regime && count >= 2,
                changed_at: t.changed_at,
                transition_age_sec: age,
            };
        }
    }

    /// True when the detector was never trained or the elapsed time since
    /// the last training run strictly exceeds the retraining interval.
    pub fn needs_retrain(&self, now: i64) -> (b: bool)
        ensures
            b == (!self._trained || now - self._last_train_ts
                > self.cfg.retrain_interval_sec),
    {
        if !self._trained {
            return true;
        }
        (now as i128) - (self._last_train_ts as i128) > (self.cfg.retrain_interval_sec as i128)
    }

    /// Tier name of the current training depth.
    pub fn quality_tier(&self) -> (t: &'static str)
        ensures
            t@ == quality_tier_spec(self.training_depth as int),
    {
        quality_tier_for_depth(self.training_depth)
    }

    /// Confidence modifier of the current training depth.
    pub fn confidence_modifier(&self) -> (m: i64)
        ensures
            m == confidence_modifier_spec(self.training_depth as int),
    {
        confidence_modifier_for_depth(self.training_depth)
    }

    pub fn get_tertiary_transition(&self) -> (t: TertiaryTransition)
        ensures
            t == self.tertiary_transition,
    {
        self.tertiary_transition
    }

    pub fn set_tertiary_transition(&mut self, transition: TertiaryTransition)
        ensures
            final(self).tertiary_transition == transition,
            state_eq(final(self).state, old(self).state),
            final(self)._trained == old(self)._trained,
            final(self)._last_train_ts == old(self)._last_train_ts,
            final(self).training_depth == old(self).training_depth,
            final(self).cfg == old(self).cfg,
            final(self).model == old(self).model,
            final(self).label_map == old(self).label_map,
    {
        self.tertiary_transition = transition;
    }

    /// Serialize the detector's bookkeeping.  The fitted model's parameters
    /// are not part of the snapshot: a restored detector must be retrained
    /// before it can produce fresh inference.
    pub fn snapshot(&self) -> (s: DetectorSnapshot)
        ensures
            is_snapshot_of(s, *self),
    {
        DetectorSnapshot {
            regime_state: Some(self.state.clone()),
            last_train_ts: Some(self._last_train_ts),
            trained: Some(self._trained),
            training_depth: Some(self.training_depth),
            quality_tier: Some(quality_tier_for_depth(self.training_depth).to_owned()),
            confidence_modifier: Some(confidence_modifier_for_depth(self.training_depth)),
            tertiary_transition: Some(self.tertiary_transition),
        }
    }

    /// Restore bookkeeping from a snapshot.  Present fields replace the
    /// current values — the transition record sanitized, the depth floored at
    /// zero — and absent fields are kept; the model, label map and
    /// configuration are never touched.
    pub fn restore_snapshot(&mut self, snapshot: &DetectorSnapshot)
        requires
            old(self).wf(),
        ensures
            final(self).wf(),
            is_restoration(*old(self), *snapshot, *final(self)),
    {
        match &snapshot.regime_state {
            Some(rs) => {
                self.state = rs.clone();
            },
            None => {},
        }
        match snapshot.last_train_ts {
            Some(v) => {
                self._last_train_ts = v;
            },
            None => {},
        }
        match snapshot.trained {
            Some(v) => {
                self._trained = v;
            },
            None => {},
        }
        let depth = match snapshot.training_depth {
            Some(v) => v,
            None => self.training_depth,
        };
        self.training_depth = if depth < 0 {
            0
        } else {
            depth
        };
        match snapshot.tertiary_transition {
            Some(t) => {
                self.tertiary_transition = sanitize_transition_exec(t);
            },
            None => {},
        }
    }
}

/// Law of the snapshot round trip: restoring a detector's snapshot onto a
/// fresh (model-less) detector reproduces its regime state, transition record
/// and bookkeeping exactly, while the model parameters never travel — the
/// restored detector still has no model.
pub proof fn lemma_snapshot_restore_round_trip(
    d: RegimeDetector,
    fresh: RegimeDetector,
    s: DetectorSnapshot,
    restored: RegimeDetector,
)
    requires
        d.wf(),
        transition_valid(d.tertiary_transition),
        fresh.model is None,
        is_snapshot_of(s, d),
        is_restoration(fresh, s, restored),
    ensures
        state_eq(restored.state, d.state),
        restored.tertiary_transition == d.tertiary_transition,
        restored._last_train_ts == d._last_train_ts,
        restored._trained == d._trained,
        restored.training_depth == d.training_depth,
        restored.model is None,
{
}

} // verus!

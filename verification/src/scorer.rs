//! The hotword scorer: follows, frame by frame, how well the audio matches
//! one hotword, and decides when the hotword fires.
//!
//! The activation of a frame is the weighted sum of its features plus the
//! bias, limited to the score range; a frame that is quieter than the
//! hotword's least amplitude activates nothing. The score moves a quarter of
//! the way from its old value to the activation with every frame. The
//! hotword fires when the score comes to exceed the threshold of its
//! sensitivity, and not again before the score has fallen back to it.

use vstd::prelude::*;
use crate::feature::all_features;
use crate::model::{HotwordParams, HotwordParamsView};
use crate::resource::MAX_FEATURE_DIM;
use crate::sensitivity::SCORE_SCALE;

verus! {

/// The weighted sum of the first `n` features.
pub open spec fn dot(weights: Seq<i32>, features: Seq<i32>, n: nat) -> int
    decreases n,
{
    if n == 0 {
        0
    } else {
        dot(weights, features, (n - 1) as nat) + weights[n - 1] * features[n - 1]
    }
}

/// The activation of a frame for a hotword, in millionths.
pub open spec fn spec_activation(
    params: HotwordParamsView,
    features: Seq<i32>,
    amplitude: int,
) -> int {
    if amplitude < params.min_amplitude {
        0
    } else {
        let raw = params.bias + dot(params.weights, features, features.len());
        if raw < 0 {
            0
        } else if raw > SCORE_SCALE {
            SCORE_SCALE as int
        } else {
            raw
        }
    }
}

/// An activation lies in the score range.
pub proof fn lemma_activation_bounds(params: HotwordParamsView, features: Seq<i32>, amplitude: int)
    ensures
        0 <= spec_activation(params, features, amplitude) <= SCORE_SCALE,
{
}

/// A weighted sum of `n` features is at most `n` times the largest product.
pub proof fn lemma_dot_bounds(weights: Seq<i32>, features: Seq<i32>, n: nat)
    requires
        n <= weights.len(),
        n <= features.len(),
        all_features(features),
    ensures
        -0x8000_0000_0000 * n <= dot(weights, features, n) <= 0x8000_0000_0000 * n,
    decreases n,
{
    if n > 0 {
        lemma_dot_bounds(weights, features, (n - 1) as nat);
        let w = weights[n - 1];
        let f = features[n - 1];
        assert(0 <= f <= 65535);
        assert(-0x8000_0000_0000 <= w * f <= 0x8000_0000_0000) by (nonlinear_arith)
            requires
                -0x8000_0000 <= w <= 0x7fff_ffff,
                0 <= f <= 65535,
        ;
    }
}

/// The state of one scorer between two frames.
#[derive(Debug, Clone, Copy, PartialEq, Eq, Structural)]
pub struct ScorerState {
    /// The smoothed score, in millionths.
    pub score: i32,
    /// Whether the score exceeded the threshold at the last frame.
    pub latched: bool,
}

impl ScorerState {
    /// Whether the score is in range.
    pub open spec fn wf(self) -> bool {
        0 <= self.score <= SCORE_SCALE
    }

    /// The state before any frame.
    pub open spec fn spec_initial() -> ScorerState {
        ScorerState { score: 0, latched: false }
    }

    /// The state after a frame with the given activation.
    pub open spec fn spec_next(self, activation: int, threshold: int) -> ScorerState {
        let score = (3 * self.score + activation) / 4;
        ScorerState { score: score as i32, latched: score > threshold }
    }

    /// Whether the hotword fires at a frame with the given activation: the
    /// score exceeds the threshold now and did not at the frame before.
    pub open spec fn spec_fires(self, activation: int, threshold: int) -> bool {
        self.spec_next(activation, threshold).latched && !self.latched
    }

    /// Returns the state before any frame.
    pub fn initial() -> (s: ScorerState)
        ensures
            s == Self::spec_initial(),
            s.wf(),
    {
        ScorerState { score: 0, latched: false }
    }

    /// Returns the state after a frame with the given activation, and
    /// whether the hotword fires at it.
    pub fn next(&self, activation: i32, threshold: i32) -> (r: (ScorerState, bool))
        requires
            self.wf(),
            0 <= activation <= SCORE_SCALE,
        ensures
            r.0 == self.spec_next(activation as int, threshold as int),
            r.1 == self.spec_fires(activation as int, threshold as int),
            r.0.wf(),
    {
        let score: i32 = (3 * self.score + activation) / 4;
        let above: bool = score > threshold;
        (ScorerState { score, latched: above }, above && !self.latched)
    }
}

/// A hotword fires once per stretch of high score: at the frame after one
/// that left the score above the threshold it does not fire, whatever the
/// frame holds.
pub proof fn lemma_fires_once(
    state: ScorerState,
    activation: int,
    threshold: int,
    next_activation: int,
    next_threshold: int,
)
    requires
        state.spec_next(activation, threshold).latched,
    ensures
        !state.spec_next(activation, threshold).spec_fires(next_activation, next_threshold),
{
}

/// A hotword whose score has fallen to the threshold or below fires again
/// as soon as the score exceeds the threshold.
pub proof fn lemma_fires_again(state: ScorerState, activation: int, threshold: int)
    requires
        !state.latched,
        (3 * state.score + activation) / 4 > threshold,
    ensures
        state.spec_fires(activation, threshold),
{
}

/// Computes the activation of a frame for a hotword.
pub fn activation(params: &HotwordParams, features: &Vec<i32>, amplitude: i32) -> (a: i32)
    requires
        params@.weights.len() == features@.len(),
        features@.len() <= MAX_FEATURE_DIM,
        all_features(features@),
    ensures
        a == spec_activation(params@, features@, amplitude as int),
        0 <= a <= SCORE_SCALE,
{
    if amplitude < params.min_amplitude {
        return 0;
    }
    let n: usize = features.len();
    let mut sum: i64 = 0;
    let mut j: usize = 0;
    while j < n
        invariant
            j <= n,
            n == features@.len(),
            n == params.weights@.len(),
            n <= MAX_FEATURE_DIM,
            all_features(features@),
            sum == dot(params.weights@, features@, j as nat),
            -0x8000_0000_0000 * j <= sum <= 0x8000_0000_0000 * j,
        decreases n - j,
    {
        proof {
            lemma_dot_bounds(params.weights@, features@, (j + 1) as nat);
        }
        let w: i64 = params.weights[j] as i64;
        let f: i64 = features[j] as i64;
        assert(-0x8000_0000_0000 <= w * f <= 0x8000_0000_0000) by (nonlinear_arith)
            requires
                -0x8000_0000 <= w <= 0x7fff_ffff,
                0 <= f <= 65535,
        ;
        sum = sum + w * f;
        j += 1;
    }
    let raw: i64 = params.bias as i64 + sum;
    if raw < 0 {
        0
    } else if raw > SCORE_SCALE as i64 {
        SCORE_SCALE
    } else {
        raw as i32
    }
}

} // verus!

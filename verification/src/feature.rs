//! The feature extractor: a pure function from an analysis frame to a
//! feature vector of fixed dimension.
//!
//! Feature 0 is the level of the frame, its mean amplitude. Feature `j`, for
//! `j >= 1`, is the average magnitude difference at lag `j`: the mean of
//! `|x[i] - x[i - j]|` over the frame, which is small where the signal
//! repeats after `j` samples and large where it does not.

use vstd::prelude::*;
use crate::sample::{all_samples, is_sample, spec_abs, spec_max};

verus! {

/// The sum of the magnitudes of the first `n` samples of a frame.
pub open spec fn abs_sum(frame: Seq<i32>, n: nat) -> int
    decreases n,
{
    if n == 0 {
        0
    } else {
        abs_sum(frame, (n - 1) as nat) + spec_abs(frame[n - 1] as int)
    }
}

/// The sum of `|x[i] - x[i - lag]|` over the positions `lag <= i < n` of a frame.
pub open spec fn abs_diff_sum(frame: Seq<i32>, lag: nat, n: nat) -> int
    decreases n,
{
    if n <= lag {
        0
    } else {
        abs_diff_sum(frame, lag, (n - 1) as nat) + spec_abs(frame[n - 1] - frame[n - 1 - lag])
    }
}

/// The largest magnitude among the first `n` samples of a frame.
pub open spec fn peak_of(frame: Seq<i32>, n: nat) -> int
    decreases n,
{
    if n == 0 {
        0
    } else {
        spec_max(peak_of(frame, (n - 1) as nat), spec_abs(frame[n - 1] as int))
    }
}

/// The amplitude of a frame: its largest magnitude.
pub open spec fn spec_peak(frame: Seq<i32>) -> int {
    peak_of(frame, frame.len())
}

/// The level of a frame: its mean magnitude, rounded down.
pub open spec fn spec_level(frame: Seq<i32>) -> int {
    abs_sum(frame, frame.len()) / (frame.len() as int)
}

/// The average magnitude difference of a frame at a lag, rounded down.
pub open spec fn spec_amdf(frame: Seq<i32>, lag: nat) -> int {
    abs_diff_sum(frame, lag, frame.len()) / (frame.len() as int)
}

/// Feature `j` of a frame.
pub open spec fn spec_feature(frame: Seq<i32>, j: nat) -> int {
    if j == 0 {
        spec_level(frame)
    } else {
        spec_amdf(frame, j)
    }
}

/// The feature vector of a frame.
pub open spec fn spec_features(frame: Seq<i32>, dim: nat) -> Seq<i32> {
    Seq::new(dim, |j: int| spec_feature(frame, j as nat) as i32)
}

/// Whether every feature lies between 0 and 65535.
pub open spec fn all_features(f: Seq<i32>) -> bool {
    forall|j: int| 0 <= j < f.len() ==> 0 <= #[trigger] f[j] <= 65535
}

/// A sum of `n` magnitudes of samples is at most `n` times full scale.
pub proof fn lemma_abs_sum_bounds(frame: Seq<i32>, n: nat)
    requires
        n <= frame.len(),
        all_samples(frame),
    ensures
        0 <= abs_sum(frame, n) <= 32768 * n,
    decreases n,
{
    if n > 0 {
        lemma_abs_sum_bounds(frame, (n - 1) as nat);
        assert(is_sample(frame[n - 1] as int));
    }
}

/// A sum of magnitude differences over `n` positions is at most `n` times
/// the width of the sample range.
pub proof fn lemma_abs_diff_sum_bounds(frame: Seq<i32>, lag: nat, n: nat)
    requires
        n <= frame.len(),
        all_samples(frame),
    ensures
        0 <= abs_diff_sum(frame, lag, n) <= 65535 * n,
    decreases n,
{
    if n > lag {
        lemma_abs_diff_sum_bounds(frame, lag, (n - 1) as nat);
        assert(is_sample(frame[n - 1] as int));
        assert(is_sample(frame[n - 1 - lag] as int));
    }
}

/// The amplitude of a frame of samples is at most full scale.
pub proof fn lemma_peak_bounds(frame: Seq<i32>, n: nat)
    requires
        n <= frame.len(),
        all_samples(frame),
    ensures
        0 <= peak_of(frame, n) <= 32768,
    decreases n,
{
    if n > 0 {
        lemma_peak_bounds(frame, (n - 1) as nat);
        assert(is_sample(frame[n - 1] as int));
    }
}

/// A mean of a sum that is at most `n * bound` is at most `bound`.
pub proof fn lemma_mean_bounds(sum: int, n: int, bound: int)
    requires
        n >= 1,
        0 <= sum <= bound * n,
    ensures
        0 <= sum / n <= bound,
{
    assert(0 <= sum / n <= bound) by (nonlinear_arith)
        requires
            n >= 1,
            0 <= sum <= bound * n,
    ;
}

/// Every feature of a frame of samples lies between 0 and 65535.
pub proof fn lemma_features_bounds(frame: Seq<i32>, dim: nat)
    requires
        frame.len() >= 1,
        all_samples(frame),
    ensures
        all_features(spec_features(frame, dim)),
        spec_features(frame, dim).len() == dim,
        0 <= spec_level(frame) <= 32768,
{
    lemma_abs_sum_bounds(frame, frame.len());
    lemma_mean_bounds(abs_sum(frame, frame.len()), frame.len() as int, 32768);
    let f = spec_features(frame, dim);
    assert forall|j: int| 0 <= j < f.len() implies 0 <= #[trigger] f[j] <= 65535 by {
        if j > 0 {
            lemma_abs_diff_sum_bounds(frame, j as nat, frame.len());
            lemma_mean_bounds(abs_diff_sum(frame, j as nat, frame.len()), frame.len() as int, 65535);
        }
    }
}

/// Returns the amplitude of a frame: its largest magnitude.
pub fn peak(frame: &Vec<i32>) -> (p: i32)
    requires
        all_samples(frame@),
    ensures
        p == spec_peak(frame@),
        0 <= p <= 32768,
{
    let mut p: i32 = 0;
    let mut i: usize = 0;
    while i < frame.len()
        invariant
            i <= frame.len(),
            all_samples(frame@),
            p == peak_of(frame@, i as nat),
            0 <= p <= 32768,
        decreases frame.len() - i,
    {
        assert(is_sample(frame@[i as int] as int));
        let x: i32 = frame[i];
        let m: i32 = if x < 0 { -x } else { x };
        if m > p {
            p = m;
        }
        i += 1;
    }
    p
}

/// Returns the level of a frame: its mean magnitude.
pub fn level(frame: &Vec<i32>) -> (r: i32)
    requires
        1 <= frame.len() <= crate::frame::MAX_FRAME_LEN,
        all_samples(frame@),
    ensures
        r == spec_level(frame@),
        0 <= r <= 32768,
{
    let n: usize = frame.len();
    let mut sum: u64 = 0;
    let mut i: usize = 0;
    while i < n
        invariant
            i <= n,
            n == frame.len(),
            n <= crate::frame::MAX_FRAME_LEN,
            all_samples(frame@),
            sum == abs_sum(frame@, i as nat),
            sum <= 32768 * i,
        decreases n - i,
    {
        assert(is_sample(frame@[i as int] as int));
        let x: i32 = frame[i];
        let m: i32 = if x < 0 { -x } else { x };
        sum = sum + m as u64;
        i += 1;
    }
    proof {
        lemma_mean_bounds(sum as int, n as int, 32768);
    }
    (sum / (n as u64)) as i32
}

/// Returns the average magnitude difference of a frame at a lag.
pub fn amdf(frame: &Vec<i32>, lag: usize) -> (r: i32)
    requires
        1 <= frame.len() <= crate::frame::MAX_FRAME_LEN,
        all_samples(frame@),
    ensures
        r == spec_amdf(frame@, lag as nat),
        0 <= r <= 65535,
{
    let n: usize = frame.len();
    let mut sum: u64 = 0;
    let mut i: usize = if lag < n { lag } else { n };
    proof {
        lemma_abs_diff_sum_zero(frame@, lag as nat, i as nat);
    }
    while i < n
        invariant
            i <= n,
            lag <= i || i == n,
            n == frame.len(),
            n <= crate::frame::MAX_FRAME_LEN,
            all_samples(frame@),
            sum == abs_diff_sum(frame@, lag as nat, i as nat),
            sum <= 65535 * i,
        decreases n - i,
    {
        assert(is_sample(frame@[i as int] as int));
        assert(is_sample(frame@[i - lag] as int));
        let d: i32 = frame[i] - frame[i - lag];
        let m: i32 = if d < 0 { -d } else { d };
        sum = sum + m as u64;
        i += 1;
    }
    proof {
        lemma_mean_bounds(sum as int, n as int, 65535);
    }
    (sum / (n as u64)) as i32
}

/// A sum of magnitude differences over no position is zero.
pub proof fn lemma_abs_diff_sum_zero(frame: Seq<i32>, lag: nat, n: nat)
    requires
        n <= lag,
    ensures
        abs_diff_sum(frame, lag, n) == 0,
{
}

/// Extracts the feature vector of a frame.
pub fn extract(frame: &Vec<i32>, dim: usize) -> (out: Vec<i32>)
    requires
        1 <= frame.len() <= crate::frame::MAX_FRAME_LEN,
        all_samples(frame@),
    ensures
        out@ == spec_features(frame@, dim as nat),
        all_features(out@),
{
    extract_into(frame, dim, Vec::with_capacity(dim))
}

/// Extracts the feature vector of a frame into a vector that is given for
/// the purpose, whatever it held, and returns that vector.
pub fn extract_into(frame: &Vec<i32>, dim: usize, storage: Vec<i32>) -> (out: Vec<i32>)
    requires
        1 <= frame.len() <= crate::frame::MAX_FRAME_LEN,
        all_samples(frame@),
    ensures
        out@ == spec_features(frame@, dim as nat),
        all_features(out@),
{
    let mut out: Vec<i32> = storage;
    out.clear();
    let mut j: usize = 0;
    while j < dim
        invariant
            j <= dim,
            out.len() == j,
            1 <= frame.len() <= crate::frame::MAX_FRAME_LEN,
            all_samples(frame@),
            forall|k: int|
                0 <= k < j ==> #[trigger] out[k] == spec_feature(frame@, k as nat) && 0 <= out[k]
                    <= 65535,
        decreases dim - j,
    {
        let value: i32 = if j == 0 { level(frame) } else { amdf(frame, j) };
        out.push(value);
        j += 1;
    }
    assert(out@ =~= spec_features(frame@, dim as nat));
    out
}

} // verus!

//! The frontend processor: fixed-point automatic gain control and a light
//! noise suppression, applied to a frame before features are extracted.
//!
//! The processor follows two slowly moving estimates. The envelope rises at
//! once to the amplitude of a louder frame and falls by an eighth of the
//! distance toward a quieter one. The noise floor drops at once to the
//! amplitude of a quieter frame and creeps up by one step per frame
//! otherwise. Every sample loses the noise floor from its magnitude and is
//! then scaled so that the envelope lands on the target level.

use vstd::prelude::*;
use crate::feature::{lemma_peak_bounds, peak, spec_peak};
use crate::sample::{all_samples, is_sample, spec_abs, spec_min};

verus! {

/// The level that the gain control steers the envelope to.
pub const AGC_TARGET: i32 = 16384;

/// Smallest gain of the gain control, in units of 1/256.
pub const AGC_MIN_GAIN: i32 = 64;

/// Largest gain of the gain control, in units of 1/256.
pub const AGC_MAX_GAIN: i32 = 2048;

/// Highest noise floor that the noise suppression assumes.
pub const NOISE_CAP: i32 = 1024;

/// The state of the frontend processor between two frames.
#[derive(Debug, Clone, Copy, PartialEq, Eq, Structural)]
pub struct AgcState {
    /// The smoothed amplitude of the recent frames.
    pub envelope: i32,
    /// The estimated amplitude of the background noise.
    pub noise: i32,
}

impl AgcState {
    /// Whether both estimates are in range.
    pub open spec fn wf(self) -> bool {
        &&& 0 <= self.envelope <= 32768
        &&& 0 <= self.noise <= NOISE_CAP
    }

    /// The state before any frame: unit gain, no noise.
    pub open spec fn spec_initial() -> AgcState {
        AgcState { envelope: AGC_TARGET, noise: 0 }
    }

    /// The state after a frame of the given amplitude.
    pub open spec fn spec_next(self, peak: int) -> AgcState {
        let noise = if peak < self.noise {
            peak
        } else if self.noise < NOISE_CAP {
            self.noise + 1
        } else {
            self.noise as int
        };
        let envelope = if peak >= self.envelope {
            peak
        } else {
            self.envelope - (self.envelope - peak + 7) / 8
        };
        AgcState { envelope: envelope as i32, noise: noise as i32 }
    }

    /// The gain that the state asks for, in units of 1/256.
    pub open spec fn spec_gain(self) -> int {
        let wanted = (AGC_TARGET * 256) / (if self.envelope < 1 { 1 } else { self.envelope as int });
        if wanted < AGC_MIN_GAIN {
            AGC_MIN_GAIN as int
        } else if wanted > AGC_MAX_GAIN {
            AGC_MAX_GAIN as int
        } else {
            wanted
        }
    }

    /// One sample as the state conditions it.
    pub open spec fn spec_condition_sample(self, x: int) -> int {
        let magnitude = spec_abs(x);
        let cut = if magnitude > self.noise { magnitude - self.noise } else { 0 };
        let scaled = spec_min((cut * self.spec_gain()) / 256, 32767);
        if x < 0 { -scaled } else { scaled }
    }

    /// A frame as the state conditions it.
    pub open spec fn spec_condition(self, frame: Seq<i32>) -> Seq<i32> {
        Seq::new(frame.len(), |i: int| self.spec_condition_sample(frame[i] as int) as i32)
    }

    /// The state after a frame, and the frame as that state conditions it.
    pub open spec fn spec_process(self, frame: Seq<i32>) -> (AgcState, Seq<i32>) {
        let next = self.spec_next(spec_peak(frame));
        (next, next.spec_condition(frame))
    }

    /// Returns the state before any frame.
    pub fn initial() -> (s: AgcState)
        ensures
            s == Self::spec_initial(),
            s.wf(),
    {
        AgcState { envelope: AGC_TARGET, noise: 0 }
    }

    /// Returns the state after a frame of the given amplitude.
    pub fn next(&self, peak: i32) -> (s: AgcState)
        requires
            self.wf(),
            0 <= peak <= 32768,
        ensures
            s == self.spec_next(peak as int),
            s.wf(),
    {
        let noise: i32 = if peak < self.noise {
            peak
        } else if self.noise < NOISE_CAP {
            self.noise + 1
        } else {
            self.noise
        };
        let envelope: i32 = if peak >= self.envelope {
            peak
        } else {
            self.envelope - (self.envelope - peak + 7) / 8
        };
        AgcState { envelope, noise }
    }

    /// Returns the gain that the state asks for, in units of 1/256.
    pub fn gain(&self) -> (g: i32)
        requires
            self.wf(),
        ensures
            g == self.spec_gain(),
            AGC_MIN_GAIN <= g <= AGC_MAX_GAIN,
    {
        let divisor: i32 = if self.envelope < 1 { 1 } else { self.envelope };
        let wanted: i32 = (AGC_TARGET * 256) / divisor;
        if wanted < AGC_MIN_GAIN {
            AGC_MIN_GAIN
        } else if wanted > AGC_MAX_GAIN {
            AGC_MAX_GAIN
        } else {
            wanted
        }
    }

    /// Conditions one sample with the gain that the state asks for.
    fn condition_sample(&self, x: i32, gain: i32) -> (r: i32)
        requires
            self.wf(),
            is_sample(x as int),
            gain == self.spec_gain(),
        ensures
            r == self.spec_condition_sample(x as int),
            is_sample(r as int),
    {
        let magnitude: i32 = if x < 0 { -x } else { x };
        let cut: i32 = if magnitude > self.noise { magnitude - self.noise } else { 0 };
        assert(0 <= cut * gain <= 32768 * 2048) by (nonlinear_arith)
            requires
                0 <= cut <= 32768,
                64 <= gain <= 2048,
        ;
        let amplified: i32 = (cut * gain) / 256;
        let scaled: i32 = if amplified > 32767 { 32767 } else { amplified };
        if x < 0 { -scaled } else { scaled }
    }

    /// Takes a frame in: moves the state on and returns the conditioned frame.
    pub fn process(&mut self, frame: Vec<i32>) -> (out: Vec<i32>)
        requires
            old(self).wf(),
            all_samples(frame@),
        ensures
            final(self).wf(),
            *final(self) == old(self).spec_process(frame@).0,
            out@ == old(self).spec_process(frame@).1,
            out@.len() == frame@.len(),
            all_samples(out@),
    {
        let p: i32 = peak(&frame);
        let next: AgcState = self.next(p);
        let gain: i32 = next.gain();
        let mut out: Vec<i32> = frame;
        let ghost before = out@;
        let mut i: usize = 0;
        while i < out.len()
            invariant
                i <= out.len(),
                out.len() == before.len(),
                next.wf(),
                gain == next.spec_gain(),
                all_samples(before),
                forall|k: int|
                    0 <= k < i ==> #[trigger] out[k] == next.spec_condition_sample(before[k] as int)
                        && is_sample(out[k] as int),
                forall|k: int| i <= k < out.len() ==> out[k] == before[k],
            decreases out.len() - i,
        {
            assert(is_sample(before[i as int] as int));
            let y: i32 = next.condition_sample(out[i], gain);
            out.set(i, y);
            i += 1;
        }
        assert(out@ =~= next.spec_condition(before));
        *self = next;
        out
    }
}

/// Conditioning keeps a frame a frame: same length, samples only; and the
/// state stays in range.
pub proof fn lemma_process_wf(state: AgcState, frame: Seq<i32>)
    requires
        state.wf(),
        all_samples(frame),
    ensures
        state.spec_process(frame).0.wf(),
        state.spec_process(frame).1.len() == frame.len(),
        all_samples(state.spec_process(frame).1),
{
    lemma_peak_bounds(frame, frame.len());
    let next = state.spec_next(spec_peak(frame));
    let out = next.spec_condition(frame);
    assert forall|i: int| 0 <= i < out.len() implies is_sample(#[trigger] out[i] as int) by {
        assert(is_sample(frame[i] as int));
        lemma_condition_sample_bounds(next, frame[i] as int);
    }
}

/// A conditioned sample is a sample.
pub proof fn lemma_condition_sample_bounds(state: AgcState, x: int)
    requires
        state.wf(),
        is_sample(x),
    ensures
        is_sample(state.spec_condition_sample(x)),
{
    let magnitude = spec_abs(x);
    let cut = if magnitude > state.noise { magnitude - state.noise } else { 0 };
    let g = state.spec_gain();
    assert((cut * g) / 256 >= 0) by (nonlinear_arith)
        requires
            cut >= 0,
            g >= 64,
    ;
}

} // verus!

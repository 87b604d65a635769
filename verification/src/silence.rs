//! What the engines make of digital silence: of samples that are zero.
//!
//! An engine that has heard nothing but zeros since it was built or reset
//! hears silence in zeros, whatever the gain, the frontend switch and the
//! cut into chunks; a hotword fires on zeros only if it is made to, by a
//! bias above zero together with no least amplitude.

use vstd::prelude::*;
use vstd::arithmetic::power2::{lemma_pow2_pos, pow2};
use crate::audio::{
    group_sum, spec_average, spec_downmix, spec_gained, spec_len, spec_raw, AudioChunkView,
    SamplesView,
};
use crate::detect::{lemma_first_fired, lemma_push_wf, DetectorView};
use crate::error::{Detection, EngineError};
use crate::feature::{
    abs_diff_sum, abs_sum, peak_of, spec_features, spec_level, spec_peak,
};
use crate::front::FrontView;
use crate::frontend::AgcState;
use crate::model::HotwordParamsView;
use crate::sample::{spec_cut, Gain};
use crate::scorer::{dot, spec_activation};
use crate::sensitivity::{is_sensitivity, lemma_ppm_bounds};
use crate::vad::{lemma_vad_push_wf, VadView};

verus! {

/// Whether every sample is zero.
pub open spec fn all_zero(samples: Seq<i32>) -> bool {
    forall|i: int| 0 <= i < samples.len() ==> #[trigger] samples[i] == 0
}

/// Whether every sample that a chunk delivers is the number zero.
pub open spec fn delivers_zeros(samples: SamplesView) -> bool {
    forall|i: int|
        0 <= i < spec_len(samples) ==> ((#[trigger] spec_raw(samples, i)) matches Some(raw)
            && raw.mantissa == 0)
}

/// Whether a hotword is silent on zeros: it asks for an amplitude, or its
/// bias does not exceed zero.
pub open spec fn silent_on_zeros(hotword: HotwordParamsView) -> bool {
    hotword.min_amplitude >= 1 || hotword.bias <= 0
}

/// Whether a voice-activity detector has heard nothing but zeros since it
/// was new: what it carries over is zero, and it reports no speech.
pub open spec fn vad_at_rest(v: VadView) -> bool {
    all_zero(v.front.buffer.pending) && !v.vad.in_speech
}

/// Whether a hotword detector has heard nothing but zeros since it was new,
/// and has no hotword that fires on zeros: what it carries over is zero, it
/// reports no speech, and every score is zero.
pub open spec fn detector_at_rest(v: DetectorView) -> bool {
    &&& all_zero(v.front.buffer.pending)
    &&& !v.vad.in_speech
    &&& forall|i: int| 0 <= i < v.scorers.len() ==> (#[trigger] v.scorers[i]).score == 0
    &&& forall|i: int| 0 <= i < v.hotwords().len() ==> silent_on_zeros(#[trigger] v.hotwords()[i])
}

/// The sums over a frame of zeros are zero.
pub proof fn lemma_zero_sums(frame: Seq<i32>, lag: nat, n: nat)
    requires
        all_zero(frame),
        n <= frame.len(),
    ensures
        abs_sum(frame, n) == 0,
        abs_diff_sum(frame, lag, n) == 0,
        peak_of(frame, n) == 0,
        group_sum(frame, 0, n) == 0,
    decreases n,
{
    if n > 0 {
        lemma_zero_sums(frame, lag, (n - 1) as nat);
        assert(frame[n - 1] == 0);
        if n > lag {
            assert(frame[n - 1 - lag] == 0);
        }
    }
}

/// A frame of zeros has no level, no amplitude, and features of zero.
pub proof fn lemma_zero_frame(frame: Seq<i32>, dim: nat)
    requires
        all_zero(frame),
        frame.len() >= 1,
    ensures
        spec_level(frame) == 0,
        spec_peak(frame) == 0,
        all_zero(spec_features(frame, dim)),
{
    lemma_zero_sums(frame, 0, frame.len());
    let f = spec_features(frame, dim);
    assert forall|j: int| 0 <= j < f.len() implies #[trigger] f[j] == 0 by {
        lemma_zero_sums(frame, j as nat, frame.len());
    }
}

/// The frontend processor makes zeros of zeros.
pub proof fn lemma_zero_conditioned(state: AgcState, frame: Seq<i32>)
    requires
        state.wf(),
        all_zero(frame),
    ensures
        all_zero(state.spec_process(frame).1),
        state.spec_process(frame).1.len() == frame.len(),
{
    lemma_zero_sums(frame, 0, frame.len());
    let next = state.spec_next(spec_peak(frame));
    assert(next.noise >= 0);
    let gain = next.spec_gain();
    assert((0 * gain) / 256 == 0);
    assert(next.spec_condition_sample(0) == 0);
    let out = state.spec_process(frame).1;
    assert forall|i: int| 0 <= i < out.len() implies #[trigger] out[i] == 0 by {
        assert(frame[i] == 0);
    }
}

/// A weighted sum of zeros is zero.
pub proof fn lemma_zero_dot(weights: Seq<i32>, features: Seq<i32>, n: nat)
    requires
        all_zero(features),
        n <= features.len(),
    ensures
        dot(weights, features, n) == 0,
    decreases n,
{
    if n > 0 {
        lemma_zero_dot(weights, features, (n - 1) as nat);
        assert(features[n - 1] == 0);
        assert(weights[n - 1] * features[n - 1] == 0) by (nonlinear_arith)
            requires
                features[n - 1] == 0,
        ;
    }
}

/// A chunk that delivers zeros comes to zeros under every gain.
pub proof fn lemma_zero_chunk(samples: SamplesView, gain: Gain, channels: int)
    requires
        delivers_zeros(samples),
        channels >= 1,
    ensures
        spec_gained(samples, gain) is Some,
        all_zero(spec_gained(samples, gain)->0),
        all_zero(spec_downmix(spec_gained(samples, gain)->0, channels)),
{
    assert forall|i: int| 0 <= i < spec_len(samples) implies (#[trigger] spec_raw(samples, i))
        is Some by {}
    let data = spec_gained(samples, gain)->0;
    assert forall|i: int| 0 <= i < data.len() implies #[trigger] data[i] == 0 by {
        let raw = spec_raw(samples, i)->0;
        assert(raw.mantissa == 0);
        lemma_cut_zero(raw.mantissa * gain.significand(), raw.power + gain.power() - 150);
    }
    let mono = spec_downmix(data, channels);
    assert forall|i: int| 0 <= i < mono.len() implies #[trigger] mono[i] == 0 by {
        let groups = data.len() as int / channels;
        assert(groups * channels <= data.len()) by (nonlinear_arith)
            requires
                channels >= 1,
                groups == data.len() as int / channels,
                data.len() >= 0,
        ;
        assert((i + 1) * channels <= groups * channels && (i + 1) * channels == i * channels
            + channels && i * channels >= 0) by (nonlinear_arith)
            requires
                0 <= i < groups,
                channels >= 1,
        ;
        lemma_zero_group(data, i * channels, channels as nat);
    }
}

/// Zero is cut to zero.
pub proof fn lemma_cut_zero(mantissa: int, power: int)
    requires
        mantissa == 0,
    ensures
        spec_cut(mantissa, power) == 0,
{
    if power >= 0 {
        assert(0 * pow2(power as nat) == 0);
    } else {
        lemma_pow2_pos((-power) as nat);
    }
}

/// A group of zeros sums to zero and averages to zero.
pub proof fn lemma_zero_group(data: Seq<i32>, start: int, n: nat)
    requires
        all_zero(data),
        0 <= start,
        start + n <= data.len(),
        n >= 1,
    ensures
        spec_average(group_sum(data, start, n), n as int) == 0,
{
    lemma_zero_group_sum(data, start, n);
}

/// A group of zeros sums to zero.
pub proof fn lemma_zero_group_sum(data: Seq<i32>, start: int, n: nat)
    requires
        all_zero(data),
        0 <= start,
        start + n <= data.len(),
    ensures
        group_sum(data, start, n) == 0,
    decreases n,
{
    if n > 0 {
        lemma_zero_group_sum(data, start, (n - 1) as nat);
        assert(data[start + n - 1] == 0);
    }
}

/// A zero that goes into an audio path that carries zeros leaves zeros
/// carried, and the frame that it completes, if any, is a frame of zeros.
pub proof fn lemma_front_zero(front: FrontView, is_flush: bool)
    requires
        front.wf(),
        all_zero(front.buffer.pending),
    ensures
        ({
            let out = if is_flush { front.spec_flush() } else { front.spec_push(0) };
            &&& all_zero(out.0.buffer.pending)
            &&& (out.1 matches Some(f) ==> all_zero(f) && f.len() == front.resource.frame_len)
        }),
{
    let (buffer, frame) = if is_flush { front.buffer.flush() } else { front.buffer.push(0) };
    match frame {
        Some(f) => {
            assert(all_zero(f));
            lemma_zero_conditioned(front.agc, f);
        },
        None => {},
    }
}

/// A voice-activity detector at rest hears silence in zeros and stays at
/// rest, however many zeros it is fed.
pub proof fn lemma_vad_silence(v: VadView, samples: Seq<i32>, is_end: bool)
    requires
        v.wf(),
        vad_at_rest(v),
        all_zero(samples),
    ensures
        v.spec_feed(samples).1 == -2,
        vad_at_rest(v.spec_feed(samples).0),
        v.spec_feed(samples).0.wf(),
        v.spec_run(samples, is_end).1 == -2,
        vad_at_rest(v.spec_run(samples, is_end).0),
    decreases samples.len(),
{
    if samples.len() > 0 {
        let head = samples.drop_last();
        assert(all_zero(head));
        lemma_vad_silence(v, head, false);
        let before = v.spec_feed(head).0;
        assert(samples.last() == 0);
        lemma_vad_push_wf(before, 0);
        lemma_vad_step_silence(before, false);
    }
    lemma_vad_step_silence(v.spec_feed(samples).0, true);
}

/// One zero, or the end of the utterance, leaves a voice-activity detector
/// at rest and is silence.
pub proof fn lemma_vad_step_silence(v: VadView, is_flush: bool)
    requires
        v.wf(),
        vad_at_rest(v),
    ensures
        ({
            let out = if is_flush { v.spec_finish(true) } else { v.spec_push(0) };
            out.1 == -2 && vad_at_rest(out.0)
        }),
{
    lemma_front_zero(v.front, is_flush);
    let (front, frame) = if is_flush { v.front.spec_flush() } else { v.front.spec_push(0) };
    match frame {
        Some(f) => {
            lemma_zero_frame(f, 1);
        },
        None => {},
    }
}

/// A voice-activity detector at rest reports silence for a chunk that
/// delivers zeros, and stays at rest.
pub proof fn lemma_vad_silent_chunk(v: VadView, chunk: AudioChunkView)
    requires
        v.wf(),
        vad_at_rest(v),
        delivers_zeros(chunk.samples),
        v.front.spec_ingest(chunk) is Ok,
    ensures
        v.spec_run_chunk(chunk).1 == Ok::<Detection, EngineError>(Detection::Silence),
        vad_at_rest(v.spec_run_chunk(chunk).0),
{
    lemma_zero_chunk(chunk.samples, v.front.gain, chunk.channels);
    lemma_vad_silence(v, v.front.spec_ingest(chunk)->Ok_0, chunk.is_end);
}

/// One zero, or the end of the utterance, leaves a hotword detector at rest
/// and is silence.
pub proof fn lemma_step_silence(v: DetectorView, is_flush: bool)
    requires
        v.wf(),
        detector_at_rest(v),
    ensures
        ({
            let out = if is_flush { v.spec_finish(true) } else { v.spec_push(0) };
            out.1 == -2 && detector_at_rest(out.0)
        }),
{
    lemma_front_zero(v.front, is_flush);
    let (front, frame) = if is_flush { v.front.spec_flush() } else { v.front.spec_push(0) };
    match frame {
        Some(f) => {
            let dim = front.resource.feature_dim as nat;
            lemma_zero_frame(f, dim);
            let features = spec_features(f, dim);
            let amplitude = spec_peak(f);
            let bank = v.bank();
            assert forall|i: int| 0 <= i < v.scorers.len() implies !bank.spec_fires_at(
                features,
                amplitude,
                i,
            ) && (#[trigger] bank.spec_scorer_after(features, amplitude, i)).score == 0 by {
                let hotword = v.hotwords()[i];
                assert(silent_on_zeros(hotword));
                lemma_zero_dot(hotword.weights, features, features.len());
                assert(spec_activation(hotword, features, amplitude) == 0);
                assert(v.scorers[i].score == 0);
                assert(is_sensitivity(v.sensitivities[i]));
                lemma_ppm_bounds(v.sensitivities[i]);
                assert((3 * 0 + 0) / 4 == 0);
            }
            lemma_first_fired(bank, features, amplitude, v.scorers.len());
            match bank.spec_first_fired(features, amplitude, v.scorers.len()) {
                Some(j) => {
                    assert(bank.spec_scorer_after(features, amplitude, j as int).score == 0);
                },
                None => {},
            }
            assert(bank.spec_first_fired(features, amplitude, v.scorers.len()) is None);
            let out = v.spec_step(front, frame);
            assert(out.1 == -2);
            assert forall|i: int| 0 <= i < out.0.scorers.len() implies (
            #[trigger] out.0.scorers[i]).score == 0 by {
                assert(out.0.scorers[i] == bank.spec_scorer_after(features, amplitude, i));
            }
            assert(out.0.hotwords() == v.hotwords());
        },
        None => {},
    }
}

/// A hotword detector at rest reports silence for zeros and stays at rest,
/// however many zeros it is fed.
pub proof fn lemma_silence(v: DetectorView, samples: Seq<i32>, is_end: bool)
    requires
        v.wf(),
        detector_at_rest(v),
        all_zero(samples),
    ensures
        v.spec_feed(samples).1 == -2,
        detector_at_rest(v.spec_feed(samples).0),
        v.spec_feed(samples).0.wf(),
        v.spec_run(samples, is_end).1 == -2,
        detector_at_rest(v.spec_run(samples, is_end).0),
    decreases samples.len(),
{
    if samples.len() > 0 {
        let head = samples.drop_last();
        assert(all_zero(head));
        lemma_silence(v, head, false);
        let before = v.spec_feed(head).0;
        assert(samples.last() == 0);
        lemma_push_wf(before, 0);
        lemma_step_silence(before, false);
    }
    lemma_step_silence(v.spec_feed(samples).0, true);
}

/// A hotword detector at rest reports silence for a chunk that delivers
/// zeros, and stays at rest: silence is reported again and again.
pub proof fn lemma_silent_chunk(v: DetectorView, chunk: AudioChunkView)
    requires
        v.wf(),
        detector_at_rest(v),
        delivers_zeros(chunk.samples),
        v.front.spec_ingest(chunk) is Ok,
    ensures
        v.spec_run_chunk(chunk).1 == Ok::<Detection, EngineError>(Detection::Silence),
        detector_at_rest(v.spec_run_chunk(chunk).0),
{
    lemma_zero_chunk(chunk.samples, v.front.gain, chunk.channels);
    lemma_silence(v, v.front.spec_ingest(chunk)->Ok_0, chunk.is_end);
}

/// A detector that was reset is at rest, if none of its hotwords fires on
/// zeros.
pub proof fn lemma_reset_is_at_rest(v: DetectorView)
    requires
        forall|i: int| 0 <= i < v.hotwords().len() ==> silent_on_zeros(#[trigger] v.hotwords()[i]),
    ensures
        detector_at_rest(v.spec_reset()),
{
    let w = v.spec_reset();
    assert(w.hotwords() == v.hotwords());
    assert forall|i: int| 0 <= i < w.scorers.len() implies (#[trigger] w.scorers[i]).score == 0 by {}
}

/// A voice-activity detector that was reset is at rest.
pub proof fn lemma_vad_reset_is_at_rest(v: VadView)
    ensures
        vad_at_rest(v.spec_reset()),
{
}

} // verus!

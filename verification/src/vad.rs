//! The voice-activity detector: says of every chunk whether it held speech.
//!
//! A frame is speech when its level reaches the resource's speech level.
//! After speech, the detector keeps reporting speech for as many silent
//! frames as the resource's hangover allows, so that short pauses inside an
//! utterance do not break it up.

use vstd::prelude::*;
use crate::audio::{spec_prefix, AudioChunk, AudioChunkView, Samples, SamplesView};
use crate::error::{
    merge_codes, spec_merge_codes, Detection, EngineError, CODE_ERROR, CODE_NO_EVENT, CODE_SILENCE,
};
use crate::feature::{level, spec_level};
use crate::frame::frame_view;
use crate::front::{lemma_front_flush_wf, lemma_front_push_wf, Front, FrontView};
use crate::resource::Resource;
use crate::sample::{all_samples, is_sample, Gain};

verus! {

/// The state of the voice-activity test between two frames.
#[derive(Debug, Clone, Copy, PartialEq, Eq, Structural)]
pub struct VadState {
    /// Whether the detector currently reports speech.
    pub in_speech: bool,
    /// How many frames in a row were below the speech level.
    pub silence_run: u32,
}

impl VadState {
    /// The state before any frame: no speech, no silent frame counted.
    pub open spec fn spec_initial() -> VadState {
        VadState { in_speech: false, silence_run: 0 }
    }

    /// The state after a frame of the given level.
    pub open spec fn spec_next(self, level: int, resource: Resource) -> VadState {
        if level >= resource.vad_level {
            VadState { in_speech: true, silence_run: 0 }
        } else {
            let run = if self.silence_run < u32::MAX {
                (self.silence_run + 1) as u32
            } else {
                self.silence_run
            };
            VadState { in_speech: self.in_speech && run <= resource.vad_hangover, silence_run: run }
        }
    }

    /// Returns the state before any frame.
    pub fn initial() -> (s: VadState)
        ensures
            s == Self::spec_initial(),
    {
        VadState { in_speech: false, silence_run: 0 }
    }

    /// Returns the state after a frame of the given level.
    pub fn next(&self, level: i32, resource: &Resource) -> (s: VadState)
        ensures
            s == self.spec_next(level as int, *resource),
    {
        if level >= resource.vad_level {
            VadState { in_speech: true, silence_run: 0 }
        } else {
            let run: u32 = if self.silence_run < u32::MAX {
                self.silence_run + 1
            } else {
                self.silence_run
            };
            VadState { in_speech: self.in_speech && run <= resource.vad_hangover, silence_run: run }
        }
    }
}

/// The code of a frame by the voice-activity test alone.
pub open spec fn spec_speech_code(speech: bool) -> int {
    if speech { 0 } else { -2 }
}

/// The integer code of what a call reports: -1 for every error.
pub open spec fn spec_result_code(r: Result<Detection, EngineError>) -> int {
    match r {
        Ok(d) => d.spec_code(),
        Err(_) => -1,
    }
}

/// Returns the integer code of what a call reports: -1 for every error.
pub fn result_code(r: Result<Detection, EngineError>) -> (c: i32)
    ensures
        c == spec_result_code(r),
{
    match r {
        Ok(d) => d.code(),
        Err(_) => CODE_ERROR,
    }
}

/// The mathematical value of a [`SnowboyVad`].
pub struct VadView {
    /// The audio path.
    pub front: FrontView,
    /// The state of the voice-activity test.
    pub vad: VadState,
}

impl VadView {
    /// Whether the value is one that a detector can hold.
    pub open spec fn wf(self) -> bool {
        self.front.wf()
    }

    /// The detector as built from a resource.
    pub open spec fn spec_initial(resource: Resource) -> VadView {
        VadView { front: FrontView::spec_initial(resource), vad: VadState::spec_initial() }
    }

    /// The detector after a reset: buffers and counters as new; resource,
    /// gain and frontend switch stay.
    pub open spec fn spec_reset(self) -> VadView {
        VadView { front: self.front.spec_reset(), vad: VadState::spec_initial() }
    }

    /// The detector with the frontend processor switched on or off.
    pub open spec fn spec_apply_frontend(self, on: bool) -> VadView {
        VadView { front: FrontView { frontend: on, ..self.front }, ..self }
    }

    /// The detector with another audio gain.
    pub open spec fn spec_set_audio_gain(self, gain: Gain) -> VadView {
        VadView { front: FrontView { gain, ..self.front }, ..self }
    }

    /// The detector once the audio path has moved on and handed over a
    /// conditioned frame or none, and the code of that step.
    pub open spec fn spec_step(self, front: FrontView, frame: Option<Seq<i32>>) -> (VadView, int) {
        match frame {
            None => (VadView { front, vad: self.vad }, -2),
            Some(f) => {
                let vad = self.vad.spec_next(spec_level(f), front.resource);
                (VadView { front, vad }, spec_speech_code(vad.in_speech))
            },
        }
    }

    /// The detector after one more mono sample, and the code of that sample:
    /// silence unless it completed a frame that counts as speech.
    pub open spec fn spec_push(self, x: i32) -> (VadView, int) {
        let (front, frame) = self.front.spec_push(x);
        self.spec_step(front, frame)
    }

    /// The detector after a run of mono samples, and the merged code of the run.
    pub open spec fn spec_feed(self, samples: Seq<i32>) -> (VadView, int)
        decreases samples.len(),
    {
        if samples.len() == 0 {
            (self, -2)
        } else {
            let (before, code) = self.spec_feed(samples.drop_last());
            let (after, last) = before.spec_push(samples.last());
            (after, spec_merge_codes(code, last))
        }
    }

    /// The detector at the end of a call, and the code of what was flushed:
    /// at the end of an utterance the samples left over make a last frame.
    pub open spec fn spec_finish(self, is_end: bool) -> (VadView, int) {
        if is_end {
            let (front, frame) = self.front.spec_flush();
            self.spec_step(front, frame)
        } else {
            (self, -2)
        }
    }

    /// The detector after a call on mono samples, and the code of the call.
    pub open spec fn spec_run(self, samples: Seq<i32>, is_end: bool) -> (VadView, int) {
        let (fed, code) = self.spec_feed(samples);
        let (done, last) = fed.spec_finish(is_end);
        (done, spec_merge_codes(code, last))
    }

    /// The detector after a call on a chunk, and what the call reports. A
    /// chunk that is refused leaves the detector as it was.
    pub open spec fn spec_run_chunk(self, chunk: AudioChunkView) -> (
        VadView,
        Result<Detection, EngineError>,
    ) {
        match self.front.spec_ingest(chunk) {
            Err(e) => (self, Err(e)),
            Ok(mono) => {
                let (done, code) = self.spec_run(mono, chunk.is_end);
                (done, Ok(Detection::spec_from_code(code)->0))
            },
        }
    }

    /// The detector after a call on samples in the engine's own channel
    /// layout, and the code of the call: -1 for a refused chunk.
    pub open spec fn spec_run_samples(self, samples: SamplesView, is_end: bool) -> (VadView, int) {
        let (done, r) = self.spec_run_chunk(
            AudioChunkView {
                samples,
                channels: self.front.resource.format.num_channels as int,
                is_end,
            },
        );
        (done, spec_result_code(r))
    }

    /// The detector after a call on the first `array_length` samples, and
    /// the code of the call: a length that is negative or beyond the data is
    /// an error and leaves the detector as it was.
    pub open spec fn spec_run_prefix(self, samples: SamplesView, array_length: int, is_end: bool) -> (
        VadView,
        int,
    ) {
        match spec_prefix(samples, array_length) {
            None => (self, -1),
            Some(taken) => self.spec_run_samples(taken, is_end),
        }
    }
}

/// A step keeps the detector well formed and its settings; its code is
/// silence or speech.
pub proof fn lemma_vad_push_wf(v: VadView, x: i32)
    requires
        v.wf(),
        is_sample(x as int),
    ensures
        v.spec_push(x).0.wf(),
        v.spec_push(x).0.front.resource == v.front.resource,
        v.spec_push(x).0.front.gain == v.front.gain,
        v.spec_push(x).0.front.frontend == v.front.frontend,
        v.spec_push(x).1 == -2 || v.spec_push(x).1 == 0,
{
    lemma_front_push_wf(v.front, x);
}

/// A run of samples keeps the detector well formed and its settings; its
/// code is silence or speech.
pub proof fn lemma_vad_feed_wf(v: VadView, samples: Seq<i32>)
    requires
        v.wf(),
        all_samples(samples),
    ensures
        v.spec_feed(samples).0.wf(),
        v.spec_feed(samples).0.front.resource == v.front.resource,
        v.spec_feed(samples).0.front.gain == v.front.gain,
        v.spec_feed(samples).0.front.frontend == v.front.frontend,
        v.spec_feed(samples).1 == -2 || v.spec_feed(samples).1 == 0,
    decreases samples.len(),
{
    if samples.len() > 0 {
        lemma_vad_feed_wf(v, samples.drop_last());
        lemma_vad_push_wf(v.spec_feed(samples.drop_last()).0, samples.last());
    }
}

/// A call keeps the detector well formed and its settings; its code is
/// silence or speech.
pub proof fn lemma_vad_run_wf(v: VadView, samples: Seq<i32>, is_end: bool)
    requires
        v.wf(),
        all_samples(samples),
    ensures
        v.spec_run(samples, is_end).0.wf(),
        v.spec_run(samples, is_end).0.front.resource == v.front.resource,
        v.spec_run(samples, is_end).0.front.gain == v.front.gain,
        v.spec_run(samples, is_end).0.front.frontend == v.front.frontend,
        v.spec_run(samples, is_end).1 == -2 || v.spec_run(samples, is_end).1 == 0,
{
    lemma_vad_feed_wf(v, samples);
    lemma_front_flush_wf(v.spec_feed(samples).0.front);
}

/// A standalone voice-activity detector.
#[derive(Debug)]
pub struct SnowboyVad {
    front: Front,
    vad: VadState,
}

impl View for SnowboyVad {
    type V = VadView;

    closed spec fn view(&self) -> VadView {
        VadView { front: self.front@, vad: self.vad }
    }
}

impl SnowboyVad {
    /// Whether the detector is in a state that its operations keep up.
    pub open spec fn wf(&self) -> bool {
        self@.wf()
    }

    /// Builds a detector from an acoustic resource. A resource that
    /// describes no usable pipeline is refused.
    pub fn new(resource: Resource) -> (r: Result<SnowboyVad, EngineError>)
        ensures
            match r {
                Ok(v) => resource.valid() && v.wf() && v@ == VadView::spec_initial(resource),
                Err(e) => !resource.valid() && e == EngineError::ResourceLoadError,
            },
    {
        if !resource.is_valid() {
            return Err(EngineError::ResourceLoadError);
        }
        Ok(SnowboyVad { front: Front::new(resource), vad: VadState::initial() })
    }

    /// Resets the detector mid-stream: buffers and counters start anew,
    /// gain and frontend switch stay. Always succeeds.
    pub fn reset(&mut self) -> (ok: bool)
        requires
            old(self).wf(),
        ensures
            ok,
            final(self).wf(),
            final(self)@ == old(self)@.spec_reset(),
    {
        self.front.reset();
        self.vad = VadState::initial();
        true
    }

    fn step(&mut self, frame: Option<Vec<i32>>) -> (code: i32)
        requires
            old(self)@.front.resource.valid(),
            frame matches Some(f) ==> f@.len() == old(self)@.front.resource.frame_len
                && all_samples(f@),
        ensures
            final(self)@.front == old(self)@.front,
            (final(self)@, code as int) == old(self)@.spec_step(
                old(self)@.front,
                frame_view(frame),
            ),
    {
        match frame {
            None => CODE_SILENCE,
            Some(f) => {
                let resource = self.front.resource();
                let l: i32 = level(&f);
                self.front.recycle(f);
                self.vad = self.vad.next(l, &resource);
                if self.vad.in_speech {
                    CODE_NO_EVENT
                } else {
                    CODE_SILENCE
                }
            },
        }
    }

    /// Runs the detector on one chunk.
    ///
    /// A chunk with another channel count than the engine's is a format
    /// mismatch; a chunk whose sample count is no multiple of the channel
    /// count, or that holds a floating-point value that is no number, is a
    /// detection fault. Either way the detector is left as it was.
    pub fn run(&mut self, chunk: &AudioChunk) -> (r: Result<Detection, EngineError>)
        requires
            old(self).wf(),
        ensures
            final(self).wf(),
            (final(self)@, r) == old(self)@.spec_run_chunk(chunk@),
    {
        let mono: Vec<i32> = match self.front.ingest(chunk) {
            Ok(m) => m,
            Err(e) => {
                return Err(e);
            },
        };
        let mut code: i32 = CODE_SILENCE;
        let mut i: usize = 0;
        while i < mono.len()
            invariant
                i <= mono.len(),
                all_samples(mono@),
                self.wf(),
                (self@, code as int) == old(self)@.spec_feed(mono@.take(i as int)),
                code == -2 || code == 0,
            decreases mono.len() - i,
        {
            proof {
                assert(mono@.take(i + 1).drop_last() =~= mono@.take(i as int));
                assert(is_sample(mono@[i as int] as int));
                lemma_vad_push_wf(self@, mono@[i as int]);
            }
            let frame = self.front.push(mono[i]);
            let c: i32 = self.step(frame);
            code = merge_codes(code, c);
            i += 1;
        }
        assert(mono@.take(i as int) =~= mono@);
        if chunk.is_end {
            proof {
                lemma_front_flush_wf(self@.front);
            }
            let frame = self.front.flush();
            let c: i32 = self.step(frame);
            code = merge_codes(code, c);
        }
        self.front.recycle_samples(mono);
        let d = Detection::from_code(code);
        Ok(d.unwrap())
    }

    fn run_samples(&mut self, samples: Samples, is_end: bool) -> (code: i32)
        requires
            old(self).wf(),
        ensures
            final(self).wf(),
            (final(self)@, code as int) == old(self)@.spec_run_samples(samples@, is_end),
    {
        let chunk = AudioChunk {
            samples,
            channels: self.front.resource().format.num_channels,
            is_end,
        };
        result_code(self.run(&chunk))
    }

    fn run_prefix(&mut self, samples: Samples, array_length: i32, is_end: bool) -> (code: i32)
        requires
            old(self).wf(),
        ensures
            final(self).wf(),
            (final(self)@, code as int) == old(self)@.spec_run_prefix(
                samples@,
                array_length as int,
                is_end,
            ),
    {
        match samples.prefix(array_length) {
            None => CODE_ERROR,
            Some(taken) => self.run_samples(taken, is_end),
        }
    }

    /// Runs the detector on unsigned 8-bit PCM in the engine's channel
    /// layout, inside an utterance. Returns -2 for silence, 0 for speech and
    /// -1 for a refused chunk.
    pub fn run_char(&mut self, data: &[u8]) -> (code: i32)
        requires
            old(self).wf(),
        ensures
            final(self).wf(),
            (final(self)@, code as int) == old(self)@.spec_run_samples(
                SamplesView::Unsigned8(data@),
                false,
            ),
    {
        self.run_samples(Samples::Unsigned8(data), false)
    }

    /// Runs the detector on the first `array_length` single-precision
    /// samples, given as bit patterns. Returns -2 for silence, 0 for speech
    /// and -1 for a refused chunk.
    pub fn run_float_array(&mut self, data: &[u32], array_length: i32, is_end: bool) -> (code: i32)
        requires
            old(self).wf(),
        ensures
            final(self).wf(),
            (final(self)@, code as int) == old(self)@.spec_run_prefix(
                SamplesView::Float32(data@),
                array_length as int,
                is_end,
            ),
    {
        self.run_prefix(Samples::Float32(data), array_length, is_end)
    }

    /// Runs the detector on the first `array_length` signed 16-bit samples.
    /// Returns -2 for silence, 0 for speech and -1 for a refused chunk.
    pub fn run_short_array(&mut self, data: &[i16], array_length: i32, is_end: bool) -> (code: i32)
        requires
            old(self).wf(),
        ensures
            final(self).wf(),
            (final(self)@, code as int) == old(self)@.spec_run_prefix(
                SamplesView::Signed16(data@),
                array_length as int,
                is_end,
            ),
    {
        self.run_prefix(Samples::Signed16(data), array_length, is_end)
    }

    /// Runs the detector on the first `array_length` signed 32-bit samples.
    /// Returns -2 for silence, 0 for speech and -1 for a refused chunk.
    pub fn run_integer_array(&mut self, data: &[i32], array_length: i32, is_end: bool) -> (code:
        i32)
        requires
            old(self).wf(),
        ensures
            final(self).wf(),
            (final(self)@, code as int) == old(self)@.spec_run_prefix(
                SamplesView::Signed32(data@),
                array_length as int,
                is_end,
            ),
    {
        self.run_prefix(Samples::Signed32(data), array_length, is_end)
    }

    /// Sets the gain that every sample is put under before anything else.
    pub fn set_audio_gain(&mut self, audio_gain: Gain)
        requires
            old(self).wf(),
        ensures
            final(self).wf(),
            final(self)@ == old(self)@.spec_set_audio_gain(audio_gain),
    {
        self.front.set_gain(audio_gain);
    }

    /// Switches the frontend processor on or off. Nothing else changes.
    pub fn apply_frontend(&mut self, apply_frontend: bool)
        requires
            old(self).wf(),
        ensures
            final(self).wf(),
            final(self)@ == old(self)@.spec_apply_frontend(apply_frontend),
    {
        self.front.set_frontend(apply_frontend);
    }

    /// Returns the sampling rate that the detector requires.
    pub fn sample_rate(&self) -> (r: i32)
        ensures
            r == self@.front.resource.format.sample_rate,
    {
        self.front.resource().format.sample_rate
    }

    /// Returns the number of channels that the detector requires.
    pub fn num_channels(&self) -> (r: i32)
        ensures
            r == self@.front.resource.format.num_channels,
    {
        self.front.resource().format.num_channels
    }

    /// Returns the bits per sample of the detector's native PCM encoding.
    pub fn bits_per_sample(&self) -> (r: i32)
        ensures
            r == self@.front.resource.format.bits_per_sample,
    {
        self.front.resource().format.bits_per_sample
    }

    /// Gives the detector up.
    pub fn destroy(self) {
    }
}

} // verus!

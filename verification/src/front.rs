//! The audio path that both engines share: from a chunk as the caller
//! delivers it to conditioned analysis frames.
//!
//! A chunk is checked against the engine's channel count; every sample, as
//! it was delivered, is multiplied by the audio gain and cut to a canonical
//! sample; the channels are mixed down; the mono samples go through the
//! frame buffer; every completed frame passes the frontend processor if it is
//! switched on, and passes unchanged if it is not.

use vstd::prelude::*;
use crate::audio::{
    downmix_into, gained_into, spec_downmix, spec_gained, AudioChunk, AudioChunkView,
};
use crate::error::EngineError;
use crate::frame::{lemma_flush_wf, lemma_push_wf, FrameBuffer, FrameBufferView};
use crate::frontend::{lemma_process_wf, AgcState};
use crate::resource::Resource;
use crate::sample::{all_samples, is_sample, Gain};

verus! {

/// The mathematical value of a [`Front`].
pub struct FrontView {
    /// The resource that the engine was built from.
    pub resource: Resource,
    /// The gain applied to every sample before anything else.
    pub gain: Gain,
    /// Whether frames pass the frontend processor.
    pub frontend: bool,
    /// The frame buffer.
    pub buffer: FrameBufferView,
    /// The state of the frontend processor.
    pub agc: AgcState,
}

impl FrontView {
    /// Whether the value is one that an audio path can hold.
    pub open spec fn wf(self) -> bool {
        &&& self.resource.valid()
        &&& self.buffer.wf()
        &&& self.buffer.frame_len == self.resource.frame_len
        &&& self.buffer.hop == self.resource.hop
        &&& self.agc.wf()
    }

    /// The audio path of a new engine: unit gain, frontend off, nothing buffered.
    pub open spec fn spec_initial(resource: Resource) -> FrontView {
        FrontView {
            resource,
            gain: Gain::spec_unity(),
            frontend: false,
            buffer: FrameBufferView {
                frame_len: resource.frame_len as nat,
                hop: resource.hop as nat,
                pending: Seq::empty(),
                fresh: 0,
            },
            agc: AgcState::spec_initial(),
        }
    }

    /// The audio path after a reset: nothing buffered, the frontend processor
    /// as new; resource, gain and frontend switch stay.
    pub open spec fn spec_reset(self) -> FrontView {
        FrontView { buffer: self.buffer.cleared(), agc: AgcState::spec_initial(), ..self }
    }

    /// The mono samples that a chunk delivers, or why it is refused: a
    /// channel count other than the engine's is a format mismatch; a
    /// floating-point value that is no number, or a sample count that is no
    /// multiple of the channel count, is a detection fault. The gain
    /// multiplies every sample as the caller delivered it, before the
    /// sample is cut to 16 bits.
    pub open spec fn spec_ingest(self, chunk: AudioChunkView) -> Result<Seq<i32>, EngineError> {
        if chunk.channels != self.resource.format.num_channels {
            Err(EngineError::FormatMismatch)
        } else {
            match spec_gained(chunk.samples, self.gain) {
                None => Err(EngineError::DetectionFault),
                Some(data) => if data.len() as int % chunk.channels != 0 {
                    Err(EngineError::DetectionFault)
                } else {
                    Ok(spec_downmix(data, chunk.channels))
                },
            }
        }
    }

    /// The audio path after a completed frame, and the frame as conditioned.
    pub open spec fn spec_condition(self, frame: Seq<i32>) -> (FrontView, Seq<i32>) {
        if self.frontend {
            let (agc, conditioned) = self.agc.spec_process(frame);
            (FrontView { agc, ..self }, conditioned)
        } else {
            (self, frame)
        }
    }

    /// What the frame buffer hands on: nothing, or a conditioned frame.
    pub open spec fn spec_emit(self, buffer: FrameBufferView, frame: Option<Seq<i32>>) -> (
        FrontView,
        Option<Seq<i32>>,
    ) {
        let moved = FrontView { buffer, ..self };
        match frame {
            None => (moved, None),
            Some(f) => {
                let (next, conditioned) = moved.spec_condition(f);
                (next, Some(conditioned))
            },
        }
    }

    /// The audio path after one more mono sample, and the conditioned frame
    /// that the sample completed, if it completed one.
    pub open spec fn spec_push(self, x: i32) -> (FrontView, Option<Seq<i32>>) {
        let (buffer, frame) = self.buffer.push(x);
        self.spec_emit(buffer, frame)
    }

    /// The audio path at the end of an utterance, and the conditioned last
    /// frame, if samples were left that no frame had covered.
    pub open spec fn spec_flush(self) -> (FrontView, Option<Seq<i32>>) {
        let (buffer, frame) = self.buffer.flush();
        self.spec_emit(buffer, frame)
    }
}

/// Pushing a sample keeps the audio path well formed and its settings, and a
/// frame that comes out has the frame length and holds samples only.
pub proof fn lemma_front_push_wf(v: FrontView, x: i32)
    requires
        v.wf(),
        is_sample(x as int),
    ensures
        v.spec_push(x).0.wf(),
        v.spec_push(x).0.resource == v.resource,
        v.spec_push(x).0.gain == v.gain,
        v.spec_push(x).0.frontend == v.frontend,
        v.spec_push(x).1 matches Some(f) ==> f.len() == v.resource.frame_len && all_samples(f),
{
    lemma_push_wf(v.buffer, x);
    match v.buffer.push(x).1 {
        Some(f) => {
            lemma_process_wf(v.agc, f);
        },
        None => {},
    }
}

/// Flushing keeps the audio path well formed and its settings, and a frame
/// that comes out has the frame length and holds samples only.
pub proof fn lemma_front_flush_wf(v: FrontView)
    requires
        v.wf(),
    ensures
        v.spec_flush().0.wf(),
        v.spec_flush().0.resource == v.resource,
        v.spec_flush().0.gain == v.gain,
        v.spec_flush().0.frontend == v.frontend,
        v.spec_flush().1 matches Some(f) ==> f.len() == v.resource.frame_len && all_samples(f),
{
    lemma_flush_wf(v.buffer);
    match v.buffer.flush().1 {
        Some(f) => {
            lemma_process_wf(v.agc, f);
        },
        None => {},
    }
}

/// The audio path of an engine.
///
/// Frames and runs of mono samples are handed out as vectors of their own.
/// A caller that hands them back once it is done with them, see
/// [`Front::recycle`] and [`Front::recycle_samples`], keeps the audio path
/// from allocating while it runs.
#[derive(Debug)]
pub struct Front {
    resource: Resource,
    gain: Gain,
    frontend: bool,
    buffer: FrameBuffer,
    agc: AgcState,
    decoded: Vec<i32>,
    mixed: Vec<i32>,
}

impl View for Front {
    type V = FrontView;

    closed spec fn view(&self) -> FrontView {
        FrontView {
            resource: self.resource,
            gain: self.gain,
            frontend: self.frontend,
            buffer: self.buffer@,
            agc: self.agc,
        }
    }
}

impl Front {
    /// Creates the audio path of a new engine.
    pub fn new(resource: Resource) -> (front: Front)
        requires
            resource.valid(),
        ensures
            front@ == FrontView::spec_initial(resource),
            front@.wf(),
    {
        Front {
            resource,
            gain: Gain::unity(),
            frontend: false,
            buffer: FrameBuffer::new(resource.frame_len, resource.hop),
            agc: AgcState::initial(),
            decoded: Vec::new(),
            mixed: Vec::new(),
        }
    }

    /// Returns the resource that the engine was built from.
    pub fn resource(&self) -> (r: Resource)
        ensures
            r == self@.resource,
    {
        self.resource
    }

    /// Returns the gain applied to every sample.
    pub fn gain(&self) -> (g: Gain)
        ensures
            g == self@.gain,
    {
        self.gain
    }

    /// Returns whether frames pass the frontend processor.
    pub fn frontend(&self) -> (on: bool)
        ensures
            on == self@.frontend,
    {
        self.frontend
    }

    /// Sets the gain applied to every sample.
    pub fn set_gain(&mut self, gain: Gain)
        ensures
            final(self)@ == (FrontView { gain, ..old(self)@ }),
    {
        self.gain = gain;
    }

    /// Switches the frontend processor on or off.
    pub fn set_frontend(&mut self, on: bool)
        ensures
            final(self)@ == (FrontView { frontend: on, ..old(self)@ }),
    {
        self.frontend = on;
    }

    /// Empties the frame buffer and renews the frontend processor.
    pub fn reset(&mut self)
        requires
            old(self)@.wf(),
        ensures
            final(self)@ == old(self)@.spec_reset(),
            final(self)@.wf(),
    {
        self.buffer.clear();
        self.agc = AgcState::initial();
    }

    /// Takes back a vector that held a frame, to hold a later one: the
    /// vector becomes the reserve of the frame buffer. The value of the
    /// audio path and its reserve for samples are as they were.
    pub fn recycle(&mut self, used: Vec<i32>)
        ensures
            final(self)@ == old(self)@,
            final(self).frame_reserve() == used,
            final(self).sample_reserve() == old(self).sample_reserve(),
    {
        self.buffer.recycle(used);
    }

    /// Takes back a vector that held mono samples, to hold later ones: the
    /// vector becomes the reserve for samples. The value of the audio path
    /// and the reserve of its frame buffer are as they were.
    pub fn recycle_samples(&mut self, used: Vec<i32>)
        ensures
            final(self)@ == old(self)@,
            final(self).sample_reserve() == used,
            final(self).frame_reserve() == old(self).frame_reserve(),
    {
        self.mixed = used;
    }

    /// The vector that the frame buffer keeps in reserve, to build the next
    /// frame in.
    pub closed spec fn frame_reserve(&self) -> Vec<i32> {
        self.buffer.reserve()
    }

    /// The vector that the audio path keeps in reserve, to mix the next
    /// chunk down into.
    pub closed spec fn sample_reserve(&self) -> Vec<i32> {
        self.mixed
    }

    /// Turns a chunk into mono samples, or says why it is refused. The
    /// audio path is as it was.
    pub fn ingest(&mut self, chunk: &AudioChunk) -> (r: Result<Vec<i32>, EngineError>)
        requires
            old(self)@.wf(),
        ensures
            final(self)@ == old(self)@,
            match r {
                Ok(mono) => old(self)@.spec_ingest(chunk@) == Ok::<Seq<i32>, EngineError>(mono@)
                    && all_samples(mono@),
                Err(e) => old(self)@.spec_ingest(chunk@) == Err::<Seq<i32>, EngineError>(e),
            },
    {
        if chunk.channels != self.resource.format.num_channels {
            return Err(EngineError::FormatMismatch);
        }
        let mut storage: Vec<i32> = Vec::new();
        core::mem::swap(&mut self.decoded, &mut storage);
        let (data, ok) = gained_into(&chunk.samples, self.gain, storage);
        if !ok || data.len() % (chunk.channels as usize) != 0 {
            self.decoded = data;
            return Err(EngineError::DetectionFault);
        }
        let mut target: Vec<i32> = Vec::new();
        core::mem::swap(&mut self.mixed, &mut target);
        let mono: Vec<i32> = downmix_into(&data, chunk.channels, target);
        self.decoded = data;
        Ok(mono)
    }

    fn condition(&mut self, frame: Vec<i32>) -> (out: Vec<i32>)
        requires
            old(self)@.wf(),
            all_samples(frame@),
        ensures
            final(self)@ == old(self)@.spec_condition(frame@).0,
            out@ == old(self)@.spec_condition(frame@).1,
    {
        if self.frontend {
            self.agc.process(frame)
        } else {
            frame
        }
    }

    /// Takes one more mono sample and returns the conditioned frame that it
    /// completed, if it completed one.
    pub fn push(&mut self, x: i32) -> (frame: Option<Vec<i32>>)
        requires
            old(self)@.wf(),
            is_sample(x as int),
        ensures
            final(self)@.wf(),
            final(self)@ == old(self)@.spec_push(x).0,
            match frame {
                Some(f) => old(self)@.spec_push(x).1 == Some(f@) && f@.len()
                    == old(self)@.resource.frame_len && all_samples(f@),
                None => old(self)@.spec_push(x).1 is None,
            },
    {
        proof {
            lemma_front_push_wf(self@, x);
        }
        match self.buffer.push(x) {
            Some(raw) => Some(self.condition(raw)),
            None => None,
        }
    }

    /// Ends the utterance: returns the conditioned last frame, if samples
    /// were left that no frame had covered, and empties the frame buffer.
    pub fn flush(&mut self) -> (frame: Option<Vec<i32>>)
        requires
            old(self)@.wf(),
        ensures
            final(self)@.wf(),
            final(self)@ == old(self)@.spec_flush().0,
            match frame {
                Some(f) => old(self)@.spec_flush().1 == Some(f@) && f@.len()
                    == old(self)@.resource.frame_len && all_samples(f@),
                None => old(self)@.spec_flush().1 is None,
            },
    {
        proof {
            lemma_front_flush_wf(self@);
        }
        match self.buffer.flush() {
            Some(raw) => Some(self.condition(raw)),
            None => None,
        }
    }
}

} // verus!

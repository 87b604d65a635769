//! The hotword detector: the controller that runs the whole pipeline on
//! every chunk and reports one code per call.
//!
//! Every completed frame goes through the voice-activity test and through
//! one scorer per hotword. A call reports the lowest index among the
//! hotwords that fired during the call; if none fired, speech if a frame of
//! the call counted as speech; and silence otherwise.
//!
//! Between calls a detector is listening. A call takes it through silence,
//! speech or a trigger, as its result says, and back to listening; a reset
//! takes it back to listening as new. A detector is an owned value: giving
//! it up ends its life, and two detectors share nothing.

use vstd::prelude::*;
use crate::audio::{spec_prefix, AudioChunk, AudioChunkView, Samples, SamplesView};
use crate::error::{
    merge_codes, spec_merge_codes, Detection, EngineError, CODE_ERROR, CODE_NO_EVENT, CODE_SILENCE,
};
use crate::feature::{
    extract_into, lemma_features_bounds, peak, spec_features, spec_level, spec_peak,
};
use crate::frame::frame_view;
use crate::front::{lemma_front_flush_wf, lemma_front_push_wf, Front, FrontView};
use crate::model::{
    file_slots, flat, hotword_valid, lemma_offset_step, lemma_table, model_valid, model_views, spec_offset,
    spec_table, HotwordModel, HotwordParams, HotwordParamsView, Slot,
};
use crate::resource::Resource;
use crate::sample::{all_samples, is_sample, Gain};
use crate::scorer::{activation, lemma_activation_bounds, spec_activation, ScorerState};
use crate::sensitivity::{
    all_sensitivities, lemma_ppm_bounds, spec_parse_list, spec_threshold, SensitivityVector,
};
use crate::text::join;
use crate::vad::{result_code, spec_result_code, spec_speech_code, VadState};

verus! {

/// The sensitivities that hotwords start with.
pub open spec fn default_sensitivities(hotwords: Seq<HotwordParamsView>) -> Seq<Seq<char>> {
    Seq::new(hotwords.len(), |i: int| hotwords[i].sensitivity)
}

/// As many scorers as asked for, each in its state before any frame.
pub open spec fn fresh_scorers(n: nat) -> Seq<ScorerState> {
    Seq::new(n, |i: int| ScorerState::spec_initial())
}

/// Whether a model fits a resource as far as scoring goes: it declares a
/// hotword, and every hotword has one weight per feature.
pub open spec fn model_fits(resource: Resource, model: Seq<HotwordParamsView>) -> bool {
    &&& model.len() >= 1
    &&& forall|j: int|
        0 <= j < model.len() ==> (#[trigger] model[j]).weights.len() == resource.feature_dim
}

/// Whether model `k` of a list can be loaded: it fits the resource, and the
/// hotwords up to and including its own can still be numbered.
pub open spec fn model_loads(resource: Resource, models: Seq<Seq<HotwordParamsView>>, k: int) -> bool {
    &&& model_valid(resource, models[k])
    &&& flat(models.take(k + 1)).len() <= i32::MAX
}

/// The position of the first among the first `n` models that cannot be loaded.
pub open spec fn first_failing(
    resource: Resource,
    models: Seq<Seq<HotwordParamsView>>,
    n: nat,
) -> Option<nat>
    decreases n,
{
    if n == 0 {
        None
    } else {
        match first_failing(resource, models, (n - 1) as nat) {
            Some(k) => Some(k),
            None => if model_loads(resource, models, n - 1) {
                None
            } else {
                Some((n - 1) as nat)
            },
        }
    }
}

/// The models as they are written back: every hotword carries the
/// sensitivity that the engine currently holds for its index.
pub open spec fn spec_persisted(
    models: Seq<Seq<HotwordParamsView>>,
    sensitivities: Seq<Seq<char>>,
) -> Seq<Seq<HotwordParamsView>> {
    Seq::new(
        models.len(),
        |k: int|
            Seq::new(
                models[k].len(),
                |j: int|
                    HotwordParamsView {
                        sensitivity: sensitivities[spec_offset(models, k) + j],
                        ..models[k][j]
                    },
            ),
    )
}

/// The scorers of an engine with what they score against: for every
/// hotword, in index order, its parameters, its sensitivity and the state
/// of its scorer.
pub struct Bank {
    pub hotwords: Seq<HotwordParamsView>,
    pub sensitivities: Seq<Seq<char>>,
    pub scorers: Seq<ScorerState>,
}

impl Bank {
    /// The activation of a frame for hotword `i`.
    pub open spec fn spec_activation_at(self, features: Seq<i32>, amplitude: int, i: int) -> int {
        spec_activation(self.hotwords[i], features, amplitude)
    }

    /// The scorer of hotword `i` after a frame.
    pub open spec fn spec_scorer_after(self, features: Seq<i32>, amplitude: int, i: int) -> ScorerState {
        self.scorers[i].spec_next(
            self.spec_activation_at(features, amplitude, i),
            spec_threshold(self.sensitivities[i]),
        )
    }

    /// Whether hotword `i` fires at a frame.
    pub open spec fn spec_fires_at(self, features: Seq<i32>, amplitude: int, i: int) -> bool {
        self.scorers[i].spec_fires(
            self.spec_activation_at(features, amplitude, i),
            spec_threshold(self.sensitivities[i]),
        )
    }

    /// The scorers after a frame.
    pub open spec fn spec_scorers_after(self, features: Seq<i32>, amplitude: int) -> Seq<ScorerState> {
        Seq::new(self.scorers.len(), |i: int| self.spec_scorer_after(features, amplitude, i))
    }

    /// The lowest position among the first `n` hotwords that fire at a frame.
    pub open spec fn spec_first_fired(self, features: Seq<i32>, amplitude: int, n: nat) -> Option<nat>
        decreases n,
    {
        if n == 0 {
            None
        } else {
            match self.spec_first_fired(features, amplitude, (n - 1) as nat) {
                Some(i) => Some(i),
                None => if self.spec_fires_at(features, amplitude, n - 1) {
                    Some((n - 1) as nat)
                } else {
                    None
                },
            }
        }
    }
}

/// What an update of `files` model files comes to, given for every file
/// whether its write succeeded: a persist failure unless every file was
/// written.
pub open spec fn spec_confirm_update(files: nat, written: Seq<bool>) -> Result<(), EngineError> {
    if written.len() == files && forall|k: int| 0 <= k < written.len() ==> #[trigger] written[k] {
        Ok(())
    } else {
        Err(EngineError::PersistFailure)
    }
}

/// The mathematical value of a [`SnowboyDetect`].
pub struct DetectorView {
    /// The audio path.
    pub front: FrontView,
    /// The state of the voice-activity test.
    pub vad: VadState,
    /// The loaded models, in the order of the model list.
    pub models: Seq<Seq<HotwordParamsView>>,
    /// The current sensitivity of every hotword, in index order.
    pub sensitivities: Seq<Seq<char>>,
    /// The state of the scorer of every hotword, in index order.
    pub scorers: Seq<ScorerState>,
}

impl DetectorView {
    /// The hotwords in index order: hotword `i` of the result has index `i + 1`.
    pub open spec fn hotwords(self) -> Seq<HotwordParamsView> {
        flat(self.models)
    }

    /// Whether the value is one that a detector can hold.
    pub open spec fn wf(self) -> bool {
        &&& self.front.wf()
        &&& 1 <= self.hotwords().len() <= i32::MAX
        &&& forall|k: int|
            0 <= k < self.models.len() ==> model_fits(self.front.resource, #[trigger] self.models[k])
        &&& self.sensitivities.len() == self.hotwords().len()
        &&& all_sensitivities(self.sensitivities)
        &&& self.scorers.len() == self.hotwords().len()
        &&& forall|i: int| 0 <= i < self.scorers.len() ==> (#[trigger] self.scorers[i]).wf()
    }

    /// The detector as built from a resource and models.
    pub open spec fn spec_initial(
        resource: Resource,
        models: Seq<Seq<HotwordParamsView>>,
    ) -> DetectorView {
        DetectorView {
            front: FrontView::spec_initial(resource),
            vad: VadState::spec_initial(),
            models,
            sensitivities: default_sensitivities(flat(models)),
            scorers: fresh_scorers(flat(models).len()),
        }
    }

    /// What building a detector gives: a resource that describes no usable
    /// pipeline is refused first; then the first model that cannot be
    /// loaded, or the lack of any model, is reported with its position.
    pub open spec fn spec_load(resource: Resource, models: Seq<Seq<HotwordParamsView>>) -> Result<
        DetectorView,
        EngineError,
    > {
        if !resource.valid() {
            Err(EngineError::ResourceLoadError)
        } else if models.len() == 0 {
            Err(EngineError::ModelLoadError(0))
        } else {
            match first_failing(resource, models, models.len()) {
                Some(k) => Err(EngineError::ModelLoadError(k as usize)),
                None => Ok(Self::spec_initial(resource, models)),
            }
        }
    }

    /// The detector after a reset: buffers, counters and scorers as new;
    /// models, sensitivities, gain and frontend switch stay.
    pub open spec fn spec_reset(self) -> DetectorView {
        DetectorView {
            front: self.front.spec_reset(),
            vad: VadState::spec_initial(),
            scorers: fresh_scorers(self.scorers.len()),
            ..self
        }
    }

    /// The detector with the frontend processor switched on or off.
    pub open spec fn spec_apply_frontend(self, on: bool) -> DetectorView {
        DetectorView { front: FrontView { frontend: on, ..self.front }, ..self }
    }

    /// The detector with another audio gain.
    pub open spec fn spec_set_audio_gain(self, gain: Gain) -> DetectorView {
        DetectorView { front: FrontView { gain, ..self.front }, ..self }
    }

    /// The hotwords with their sensitivities and scorers.
    pub open spec fn bank(self) -> Bank {
        Bank { hotwords: self.hotwords(), sensitivities: self.sensitivities, scorers: self.scorers }
    }

    /// The code of a frame: the index of the lowest hotword that fires, or
    /// else what the voice-activity test says.
    pub open spec fn spec_frame_code(self, vad: VadState, features: Seq<i32>, amplitude: int) -> int {
        match self.bank().spec_first_fired(features, amplitude, self.scorers.len()) {
            Some(i) => (i + 1) as int,
            None => spec_speech_code(vad.in_speech),
        }
    }

    /// The detector once the audio path has moved on and handed over a
    /// conditioned frame or none, and the code of that step.
    pub open spec fn spec_step(self, front: FrontView, frame: Option<Seq<i32>>) -> (
        DetectorView,
        int,
    ) {
        match frame {
            None => (DetectorView { front, ..self }, -2),
            Some(f) => {
                let features = spec_features(f, front.resource.feature_dim as nat);
                let amplitude = spec_peak(f);
                let vad = self.vad.spec_next(spec_level(f), front.resource);
                (
                    DetectorView {
                        front,
                        vad,
                        scorers: self.bank().spec_scorers_after(features, amplitude),
                        ..self
                    },
                    self.spec_frame_code(vad, features, amplitude),
                )
            },
        }
    }

    /// The detector after one more mono sample, and the code of that sample.
    pub open spec fn spec_push(self, x: i32) -> (DetectorView, int) {
        let (front, frame) = self.front.spec_push(x);
        self.spec_step(front, frame)
    }

    /// The detector after a run of mono samples, and the merged code of the run.
    pub open spec fn spec_feed(self, samples: Seq<i32>) -> (DetectorView, int)
        decreases samples.len(),
    {
        if samples.len() == 0 {
            (self, -2)
        } else {
            let (before, code) = self.spec_feed(samples.drop_last());
            let (after, last) = before.spec_push(samples.last());
            (after, spec_merge_codes(code, last))
        }
    }

    /// The detector at the end of a call, and the code of what was flushed:
    /// at the end of an utterance the samples left over make a last frame.
    pub open spec fn spec_finish(self, is_end: bool) -> (DetectorView, int) {
        if is_end {
            let (front, frame) = self.front.spec_flush();
            self.spec_step(front, frame)
        } else {
            (self, -2)
        }
    }

    /// The detector after a call on mono samples, and the code of the call.
    pub open spec fn spec_run(self, samples: Seq<i32>, is_end: bool) -> (DetectorView, int) {
        let (fed, code) = self.spec_feed(samples);
        let (done, last) = fed.spec_finish(is_end);
        (done, spec_merge_codes(code, last))
    }

    /// The detector after a call on a chunk, and what the call reports. A
    /// chunk that is refused leaves the detector as it was.
    pub open spec fn spec_run_chunk(self, chunk: AudioChunkView) -> (
        DetectorView,
        Result<Detection, EngineError>,
    ) {
        match self.front.spec_ingest(chunk) {
            Err(e) => (self, Err(e)),
            Ok(mono) => {
                let (done, code) = self.spec_run(mono, chunk.is_end);
                (done, Ok(Detection::spec_from_code(code)->0))
            },
        }
    }

    /// The detector after a call on samples in the engine's own channel
    /// layout, and the code of the call: -1 for a refused chunk.
    pub open spec fn spec_run_samples(self, samples: SamplesView, is_end: bool) -> (
        DetectorView,
        int,
    ) {
        let (done, r) = self.spec_run_chunk(
            AudioChunkView {
                samples,
                channels: self.front.resource.format.num_channels as int,
                is_end,
            },
        );
        (done, spec_result_code(r))
    }

    /// The detector after a call on the first `array_length` samples, and
    /// the code of the call: a length that is negative or beyond the data is
    /// an error and leaves the detector as it was.
    pub open spec fn spec_run_prefix(self, samples: SamplesView, array_length: int, is_end: bool) -> (
        DetectorView,
        int,
    ) {
        match spec_prefix(samples, array_length) {
            None => (self, -1),
            Some(taken) => self.spec_run_samples(taken, is_end),
        }
    }

    /// The detector after an attempt to set the sensitivities, and what the
    /// attempt reports. A list that is refused changes nothing.
    pub open spec fn spec_set_sensitivity(self, text: Seq<char>) -> (
        DetectorView,
        Result<(), EngineError>,
    ) {
        match spec_parse_list(text, self.hotwords().len()) {
            Ok(entries) => (DetectorView { sensitivities: entries, ..self }, Ok(())),
            Err(e) => (self, Err(e)),
        }
    }

    /// The sensitivities as a comma-separated list.
    pub open spec fn spec_get_sensitivity(self) -> Seq<char> {
        join(self.sensitivities, ',')
    }
}

/// Whether two detectors differ in nothing that a reset keeps.
pub open spec fn same_setup(a: DetectorView, b: DetectorView) -> bool {
    &&& a.front.resource == b.front.resource
    &&& a.front.gain == b.front.gain
    &&& a.front.frontend == b.front.frontend
    &&& a.models == b.models
    &&& a.sensitivities == b.sensitivities
    &&& a.scorers.len() == b.scorers.len()
}

/// The lowest hotword that fires is a hotword, it fires, and none below it does.
pub proof fn lemma_first_fired(bank: Bank, features: Seq<i32>, amplitude: int, n: nat)
    ensures
        match bank.spec_first_fired(features, amplitude, n) {
            Some(i) => i < n && bank.spec_fires_at(features, amplitude, i as int) && forall|j: int|
                0 <= j < i ==> !bank.spec_fires_at(features, amplitude, j),
            None => forall|j: int| 0 <= j < n ==> !bank.spec_fires_at(features, amplitude, j),
        },
    decreases n,
{
    if n > 0 {
        lemma_first_fired(bank, features, amplitude, (n - 1) as nat);
    }
}

/// A step keeps the detector well formed and its setup; its code is
/// silence, speech or the index of a hotword.
pub proof fn lemma_step_wf(v: DetectorView, front: FrontView, frame: Option<Seq<i32>>)
    requires
        v.wf(),
        front.wf(),
        front.resource == v.front.resource,
        frame matches Some(f) ==> f.len() == front.resource.frame_len && all_samples(f),
    ensures
        v.spec_step(front, frame).0.wf(),
        v.spec_step(front, frame).0.front == front,
        v.spec_step(front, frame).0.models == v.models,
        v.spec_step(front, frame).0.sensitivities == v.sensitivities,
        v.spec_step(front, frame).0.scorers.len() == v.scorers.len(),
        v.spec_step(front, frame).1 == -2 || 0 <= v.spec_step(front, frame).1
            <= v.hotwords().len(),
{
    match frame {
        None => {},
        Some(f) => {
            let features = spec_features(f, front.resource.feature_dim as nat);
            let amplitude = spec_peak(f);
            lemma_features_bounds(f, front.resource.feature_dim as nat);
            lemma_first_fired(v.bank(), features, amplitude, v.scorers.len());
            let after = v.bank().spec_scorers_after(features, amplitude);
            assert forall|i: int| 0 <= i < after.len() implies (#[trigger] after[i]).wf() by {
                assert(v.scorers[i].wf());
                lemma_ppm_bounds(v.sensitivities[i]);
                lemma_activation_bounds(v.hotwords()[i], features, amplitude);
            }
        },
    }
}

/// A sample keeps the detector well formed and its setup; its code is
/// silence, speech or the index of a hotword.
pub proof fn lemma_push_wf(v: DetectorView, x: i32)
    requires
        v.wf(),
        is_sample(x as int),
    ensures
        v.spec_push(x).0.wf(),
        same_setup(v.spec_push(x).0, v),
        v.spec_push(x).1 == -2 || 0 <= v.spec_push(x).1 <= v.hotwords().len(),
{
    lemma_front_push_wf(v.front, x);
    let (front, frame) = v.front.spec_push(x);
    lemma_step_wf(v, front, frame);
}

/// A run of samples keeps the detector well formed and its setup; its code
/// is silence, speech or the index of a hotword.
pub proof fn lemma_feed_wf(v: DetectorView, samples: Seq<i32>)
    requires
        v.wf(),
        all_samples(samples),
    ensures
        v.spec_feed(samples).0.wf(),
        same_setup(v.spec_feed(samples).0, v),
        v.spec_feed(samples).1 == -2 || 0 <= v.spec_feed(samples).1 <= v.hotwords().len(),
    decreases samples.len(),
{
    if samples.len() > 0 {
        lemma_feed_wf(v, samples.drop_last());
        lemma_push_wf(v.spec_feed(samples.drop_last()).0, samples.last());
    }
}

/// A call keeps the detector well formed and its setup; its code is
/// silence, speech or the index of a hotword.
pub proof fn lemma_run_wf(v: DetectorView, samples: Seq<i32>, is_end: bool)
    requires
        v.wf(),
        all_samples(samples),
    ensures
        v.spec_run(samples, is_end).0.wf(),
        same_setup(v.spec_run(samples, is_end).0, v),
        v.spec_run(samples, is_end).1 == -2 || 0 <= v.spec_run(samples, is_end).1
            <= v.hotwords().len(),
{
    lemma_feed_wf(v, samples);
    let fed = v.spec_feed(samples).0;
    if is_end {
        lemma_front_flush_wf(fed.front);
        let (front, frame) = fed.front.spec_flush();
        lemma_step_wf(fed, front, frame);
    }
}

/// A hotword detector.
#[derive(Debug)]
pub struct SnowboyDetect {
    front: Front,
    vad: VadState,
    models: Vec<HotwordModel>,
    table: Vec<Slot>,
    sensitivities: SensitivityVector,
    scorers: Vec<ScorerState>,
    features: Vec<i32>,
}

impl View for SnowboyDetect {
    type V = DetectorView;

    closed spec fn view(&self) -> DetectorView {
        DetectorView {
            front: self.front@,
            vad: self.vad,
            models: model_views(self.models@),
            sensitivities: self.sensitivities@,
            scorers: self.scorers@,
        }
    }
}

impl SnowboyDetect {
    /// Whether the detector is in a state that its operations keep up.
    pub closed spec fn wf(&self) -> bool {
        &&& self@.wf()
        &&& self.sensitivities.wf()
        &&& self.table@ == spec_table(model_views(self.models@))
    }

    /// The value of a detector in good state is well formed.
    pub proof fn lemma_wf(&self)
        requires
            self.wf(),
        ensures
            self@.wf(),
    {
    }

    /// Builds a detector from an acoustic resource and the models of the
    /// model list, in the order of the list.
    ///
    /// A resource that describes no usable pipeline is refused. A model is
    /// refused, with its position in the list, if it declares no hotword, if
    /// one of its hotwords has another number of weights than the resource
    /// has features or a malformed sensitivity, or if its hotwords can no
    /// longer be numbered. An empty list is refused at position 0.
    pub fn new(resource: Resource, models: Vec<HotwordModel>) -> (r: Result<
        SnowboyDetect,
        EngineError,
    >)
        ensures
            match r {
                Ok(d) => d.wf() && DetectorView::spec_load(resource, model_views(models@)) == Ok::<
                    DetectorView,
                    EngineError,
                >(d@),
                Err(e) => DetectorView::spec_load(resource, model_views(models@)) == Err::<
                    DetectorView,
                    EngineError,
                >(e),
            },
    {
        if !resource.is_valid() {
            return Err(EngineError::ResourceLoadError);
        }
        if models.len() == 0 {
            return Err(EngineError::ModelLoadError(0));
        }
        let ghost views = model_views(models@);
        let mut table: Vec<Slot> = Vec::new();
        let mut sensitivities = SensitivityVector::new();
        let mut scorers: Vec<ScorerState> = Vec::new();
        let mut k: usize = 0;
        proof {
            assert(views.take(0) =~= Seq::<Seq<HotwordParamsView>>::empty());
            assert(sensitivities@ =~= default_sensitivities(flat(views.take(0))));
            assert(scorers@ =~= fresh_scorers(0));
        }
        while k < models.len()
            invariant
                k <= models.len(),
                resource.valid(),
                views == model_views(models@),
                first_failing(resource, views, k as nat) is None,
                table@ == spec_table(views.take(k as int)),
                table@.len() == flat(views.take(k as int)).len(),
                table@.len() <= i32::MAX,
                sensitivities.wf(),
                sensitivities@ == default_sensitivities(flat(views.take(k as int))),
                scorers@ == fresh_scorers(flat(views.take(k as int)).len()),
                forall|m: int| 0 <= m < k ==> model_fits(resource, #[trigger] views[m]),
            decreases models.len() - k,
        {
            let model = &models[k];
            let count: usize = model.hotwords.len();
            let ghost done = flat(views.take(k as int));
            let ghost this = views[k as int];
            proof {
                lemma_offset_step(views, k as int);
                assert(views.take(k + 1).drop_last() =~= views.take(k as int));
                assert(this.len() == count);
            }
            if count == 0 {
                proof {
                    lemma_first_failing_found(resource, views, k as nat, models@.len());
                }
                return Err(EngineError::ModelLoadError(k));
            }
            let mut j: usize = 0;
            proof {
                assert(table@ + file_slots(k as nat, 0) =~= table@);
                assert(done + this.take(0) =~= done);
            }
            while j < count
                invariant
                    j <= count,
                    k < models.len(),
                    count == models@[k as int].hotwords@.len(),
                    resource.valid(),
                    views == model_views(models@),
                    this == views[k as int],
                    this.len() == count,
                    done == flat(views.take(k as int)),
                    first_failing(resource, views, k as nat) is None,
                    flat(views.take(k + 1)) == done + this,
                    table@ == spec_table(views.take(k as int)) + file_slots(
                        k as nat,
                        j as nat,
                    ),
                    table@.len() == done.len() + j,
                    table@.len() <= i32::MAX,
                    sensitivities.wf(),
                    sensitivities@ == default_sensitivities(done + this.take(j as int)),
                    scorers@ == fresh_scorers(done.len() + j as nat),
                    forall|i: int| 0 <= i < j ==> hotword_valid(resource, #[trigger] this[i]),
                decreases count - j,
            {
                let hotword = &models[k].hotwords[j];
                assert(this[j as int] == hotword@);
                if hotword.weights.len() != resource.feature_dim || table.len() >= 0x7fff_ffff {
                    proof {
                        assert(!hotword_valid(resource, this[j as int]) || (done + this).len()
                            > i32::MAX);
                        lemma_first_failing_found(resource, views, k as nat, models@.len());
                    }
                    return Err(EngineError::ModelLoadError(k));
                }
                let ok: bool = sensitivities.push(hotword.sensitivity.as_str());
                if !ok {
                    proof {
                        assert(!hotword_valid(resource, this[j as int]));
                        lemma_first_failing_found(resource, views, k as nat, models@.len());
                    }
                    return Err(EngineError::ModelLoadError(k));
                }
                table.push(Slot { file: k, entry: j });
                scorers.push(ScorerState::initial());
                proof {
                    assert(file_slots(k as nat, j as nat).push(Slot { file: k, entry: j })
                        =~= file_slots(k as nat, (j + 1) as nat));
                    assert(table@ =~= spec_table(views.take(k as int)) + file_slots(
                        k as nat,
                        (j + 1) as nat,
                    ));
                    assert(this.take(j + 1) =~= this.take(j as int).push(this[j as int]));
                    assert(done + this.take(j + 1) =~= (done + this.take(j as int)).push(
                        this[j as int],
                    ));
                    assert(sensitivities@ =~= default_sensitivities(done + this.take(j + 1)));
                    assert(scorers@ =~= fresh_scorers(done.len() + (j + 1) as nat));
                }
                j += 1;
            }
            proof {
                assert(this.take(count as int) =~= this);
                assert(file_slots(k as nat, count as nat) =~= file_slots(
                    k as nat,
                    this.len(),
                ));
                assert(views.take(k + 1).last() == this);
                assert(model_loads(resource, views, k as int));
                assert(model_fits(resource, this)) by {
                    assert forall|j: int| 0 <= j < this.len() implies (#[trigger] this[j]).weights.len()
                        == resource.feature_dim by {
                        assert(hotword_valid(resource, this[j]));
                    }
                }
            }
            k += 1;
        }
        proof {
            assert(views.take(k as int) =~= views);
        }
        let detector = SnowboyDetect {
            front: Front::new(resource),
            vad: VadState::initial(),
            models,
            table,
            sensitivities,
            scorers,
            features: Vec::with_capacity(resource.feature_dim),
        };
        proof {
            detector.sensitivities.lemma_wf();
            assert forall|i: int| 0 <= i < detector@.scorers.len() implies (
            #[trigger] detector@.scorers[i]).wf() by {}
        }
        Ok(detector)
    }
}

impl SnowboyDetect {
    /// Resets the detector mid-stream: buffers, counters and scorers start
    /// anew; models, sensitivities, gain and frontend switch stay. Always
    /// succeeds.
    pub fn reset(&mut self) -> (ok: bool)
        requires
            old(self).wf(),
        ensures
            ok,
            final(self).wf(),
            final(self)@ == old(self)@.spec_reset(),
    {
        self.front.reset();
        self.vad = VadState::initial();
        let n: usize = self.scorers.len();
        let mut i: usize = 0;
        while i < n
            invariant
                i <= n,
                n == self.scorers@.len(),
                n == old(self).scorers@.len(),
                forall|k: int|
                    0 <= k < i ==> #[trigger] self.scorers@[k] == ScorerState::spec_initial(),
                self.front@ == old(self).front@.spec_reset(),
                self.front@.wf(),
                self.vad == VadState::spec_initial(),
                self.models == old(self).models,
                self.table == old(self).table,
                self.sensitivities == old(self).sensitivities,
            decreases n - i,
        {
            self.scorers.set(i, ScorerState::initial());
            i += 1;
        }
        assert(self.scorers@ =~= fresh_scorers(old(self)@.scorers.len()));
        true
    }

    /// Runs every scorer on the features of one frame and returns the
    /// position of the lowest hotword that fires.
    fn score(&mut self, features: &Vec<i32>, amplitude: i32) -> (first: Option<usize>)
        requires
            old(self).wf(),
            features@.len() == old(self)@.front.resource.feature_dim,
            crate::feature::all_features(features@),
        ensures
            final(self).wf(),
            final(self)@ == (DetectorView {
                scorers: old(self)@.bank().spec_scorers_after(features@, amplitude as int),
                ..old(self)@
            }),
            match first {
                Some(i) => old(self)@.bank().spec_first_fired(
                    features@,
                    amplitude as int,
                    old(self)@.scorers.len(),
                ) == Some(i as nat) && i < old(self)@.scorers.len(),
                None => old(self)@.bank().spec_first_fired(
                    features@,
                    amplitude as int,
                    old(self)@.scorers.len(),
                ) is None,
            },
    {
        let ghost before = self@;
        let n: usize = self.scorers.len();
        let mut first: Option<usize> = None;
        let mut i: usize = 0;
        proof {
            lemma_views_fit(&self.models);
                lemma_table(before.models);
        }
        while i < n
            invariant
                i <= n,
                n == before.scorers.len(),
                before == old(self)@,
                before.wf(),
                self.front == old(self).front,
                self.vad == old(self).vad,
                self.models == old(self).models,
                self.table == old(self).table,
                self.sensitivities == old(self).sensitivities,
                self.sensitivities.wf(),
                self.table@ == spec_table(before.models),
                self.table@.len() == n,
                self.scorers@.len() == n,
                features@.len() == before.front.resource.feature_dim,
                crate::feature::all_features(features@),
                forall|k: int|
                    0 <= k < i ==> #[trigger] self.scorers@[k] == before.bank().spec_scorer_after(
                        features@,
                        amplitude as int,
                        k,
                    ),
                forall|k: int| i <= k < n ==> #[trigger] self.scorers@[k] == before.scorers[k],
                forall|k: int| 0 <= k < i ==> (#[trigger] self.scorers@[k]).wf(),
                match first {
                    Some(f) => before.bank().spec_first_fired(features@, amplitude as int, i as nat)
                        == Some(f as nat) && f < i,
                    None => before.bank().spec_first_fired(features@, amplitude as int, i as nat) is None,
                },
            decreases n - i,
        {
            let slot: Slot = self.table[i];
            proof {
                lemma_views_fit(&self.models);
                lemma_table(before.models);
                assert(spec_table(before.models)[i as int] == slot);
                assert(before.scorers[i as int].wf());
                lemma_ppm_bounds(before.sensitivities[i as int]);
            }
            let params: &HotwordParams = &self.models[slot.file].hotwords[slot.entry];
            assert(params@ == before.hotwords()[i as int]);
            let a: i32 = activation(params, features, amplitude);
            let threshold: i32 = self.sensitivities.threshold(i);
            let (next, fires) = self.scorers[i].next(a, threshold);
            self.scorers.set(i, next);
            if fires && first.is_none() {
                first = Some(i);
            }
            i += 1;
        }
        assert(self.scorers@ =~= before.bank().spec_scorers_after(features@, amplitude as int));
        first
    }

    fn step(&mut self, frame: Option<Vec<i32>>) -> (code: i32)
        requires
            old(self).wf(),
            frame matches Some(f) ==> f@.len() == old(self)@.front.resource.frame_len
                && all_samples(f@),
        ensures
            final(self).wf(),
            (final(self)@, code as int) == old(self)@.spec_step(
                old(self)@.front,
                frame_view(frame),
            ),
            code == -2 || 0 <= code,
    {
        proof {
            lemma_step_wf(
                self@,
                self@.front,
                frame_view(frame),
            );
        }
        match frame {
            None => CODE_SILENCE,
            Some(f) => {
                let resource = self.front.resource();
                proof {
                    lemma_features_bounds(f@, resource.feature_dim as nat);
                }
                let mut storage: Vec<i32> = Vec::new();
                core::mem::swap(&mut self.features, &mut storage);
                let features: Vec<i32> = extract_into(&f, resource.feature_dim, storage);
                let amplitude: i32 = peak(&f);
                self.front.recycle(f);
                let vad: VadState = self.vad.next(features[0], &resource);
                let fired: Option<usize> = self.score(&features, amplitude);
                self.vad = vad;
                self.features = features;
                match fired {
                    Some(i) => (i + 1) as i32,
                    None => if vad.in_speech {
                        CODE_NO_EVENT
                    } else {
                        CODE_SILENCE
                    },
                }
            },
        }
    }

    /// Runs the detector on one chunk.
    ///
    /// A chunk with another channel count than the engine's is a format
    /// mismatch; a chunk whose sample count is no multiple of the channel
    /// count, or that holds a floating-point value that is no number, is a
    /// detection fault. Either way the detector is left as it was.
    pub fn run(&mut self, chunk: &AudioChunk) -> (r: Result<Detection, EngineError>)
        requires
            old(self).wf(),
        ensures
            final(self).wf(),
            (final(self)@, r) == old(self)@.spec_run_chunk(chunk@),
    {
        let mono: Vec<i32> = match self.front.ingest(chunk) {
            Ok(m) => m,
            Err(e) => {
                return Err(e);
            },
        };
        let mut code: i32 = CODE_SILENCE;
        let mut i: usize = 0;
        while i < mono.len()
            invariant
                i <= mono.len(),
                all_samples(mono@),
                self.wf(),
                (self@, code as int) == old(self)@.spec_feed(mono@.take(i as int)),
                code == -2 || 0 <= code,
            decreases mono.len() - i,
        {
            proof {
                assert(mono@.take(i + 1).drop_last() =~= mono@.take(i as int));
                assert(is_sample(mono@[i as int] as int));
                lemma_front_push_wf(self@.front, mono@[i as int]);
            }
            let frame = self.front.push(mono[i]);
            let c: i32 = self.step(frame);
            code = merge_codes(code, c);
            i += 1;
        }
        assert(mono@.take(i as int) =~= mono@);
        if chunk.is_end {
            proof {
                lemma_front_flush_wf(self@.front);
            }
            let frame = self.front.flush();
            let c: i32 = self.step(frame);
            code = merge_codes(code, c);
        }
        self.front.recycle_samples(mono);
        let d = Detection::from_code(code);
        Ok(d.unwrap())
    }

    fn run_samples(&mut self, samples: Samples, is_end: bool) -> (code: i32)
        requires
            old(self).wf(),
        ensures
            final(self).wf(),
            (final(self)@, code as int) == old(self)@.spec_run_samples(samples@, is_end),
    {
        let chunk = AudioChunk {
            samples,
            channels: self.front.resource().format.num_channels,
            is_end,
        };
        result_code(self.run(&chunk))
    }

    fn run_prefix(&mut self, samples: Samples, array_length: i32, is_end: bool) -> (code: i32)
        requires
            old(self).wf(),
        ensures
            final(self).wf(),
            (final(self)@, code as int) == old(self)@.spec_run_prefix(
                samples@,
                array_length as int,
                is_end,
            ),
    {
        match samples.prefix(array_length) {
            None => CODE_ERROR,
            Some(taken) => self.run_samples(taken, is_end),
        }
    }

    /// Runs the detector on unsigned 8-bit PCM in the engine's channel
    /// layout. Returns -2 for silence, 0 for speech without a hotword, the
    /// index of the hotword that fired, or -1 for a refused chunk.
    pub fn run_char_detection(&mut self, data: &[u8], is_end: bool) -> (code: i32)
        requires
            old(self).wf(),
        ensures
            final(self).wf(),
            (final(self)@, code as int) == old(self)@.spec_run_samples(
                SamplesView::Unsigned8(data@),
                is_end,
            ),
    {
        self.run_samples(Samples::Unsigned8(data), is_end)
    }

    /// Runs the detector on the first `array_length` single-precision
    /// samples, given as bit patterns. Returns -2 for silence, 0 for speech
    /// without a hotword, the index of the hotword that fired, or -1 for a
    /// refused chunk.
    pub fn run_float_array_detection(&mut self, data: &[u32], array_length: i32, is_end: bool) -> (code:
        i32)
        requires
            old(self).wf(),
        ensures
            final(self).wf(),
            (final(self)@, code as int) == old(self)@.spec_run_prefix(
                SamplesView::Float32(data@),
                array_length as int,
                is_end,
            ),
    {
        self.run_prefix(Samples::Float32(data), array_length, is_end)
    }

    /// Runs the detector on the first `array_length` signed 16-bit samples.
    /// Returns -2 for silence, 0 for speech without a hotword, the index of
    /// the hotword that fired, or -1 for a refused chunk.
    pub fn run_short_array_detection(&mut self, data: &[i16], array_length: i32, is_end: bool) -> (code:
        i32)
        requires
            old(self).wf(),
        ensures
            final(self).wf(),
            (final(self)@, code as int) == old(self)@.spec_run_prefix(
                SamplesView::Signed16(data@),
                array_length as int,
                is_end,
            ),
    {
        self.run_prefix(Samples::Signed16(data), array_length, is_end)
    }

    /// Runs the detector on the first `array_length` signed 32-bit samples.
    /// Returns -2 for silence, 0 for speech without a hotword, the index of
    /// the hotword that fired, or -1 for a refused chunk.
    pub fn run_integer_array_detection(&mut self, data: &[i32], array_length: i32, is_end: bool) -> (code:
        i32)
        requires
            old(self).wf(),
        ensures
            final(self).wf(),
            (final(self)@, code as int) == old(self)@.spec_run_prefix(
                SamplesView::Signed32(data@),
                array_length as int,
                is_end,
            ),
    {
        self.run_prefix(Samples::Signed32(data), array_length, is_end)
    }

    /// Sets the sensitivities from a comma-separated list, one entry per
    /// hotword in index order.
    ///
    /// A list with another number of entries than there are hotwords is a
    /// count mismatch; otherwise an entry that is no decimal number between
    /// 0 and 1 makes the list invalid. A refused list changes nothing.
    pub fn set_sensitivity(&mut self, sensitivity_str: &str) -> (r: Result<(), EngineError>)
        requires
            old(self).wf(),
        ensures
            final(self).wf(),
            (final(self)@, r) == old(self)@.spec_set_sensitivity(sensitivity_str@),
    {
        match SensitivityVector::parse(sensitivity_str, self.scorers.len()) {
            Ok(v) => {
                proof {
                    v.lemma_wf();
                }
                self.sensitivities = v;
                Ok(())
            },
            Err(e) => Err(e),
        }
    }

    /// Returns the sensitivities as a comma-separated list, every entry as
    /// it was set.
    pub fn get_sensitivity(&self) -> (text: String)
        ensures
            text@ == self@.spec_get_sensitivity(),
    {
        self.sensitivities.format()
    }

    /// Sets the gain that every sample is put under before anything else.
    pub fn set_audio_gain(&mut self, audio_gain: Gain)
        requires
            old(self).wf(),
        ensures
            final(self).wf(),
            final(self)@ == old(self)@.spec_set_audio_gain(audio_gain),
    {
        self.front.set_gain(audio_gain);
    }

    /// Switches the frontend processor on or off. Nothing else changes.
    pub fn apply_frontend(&mut self, apply_frontend: bool)
        requires
            old(self).wf(),
        ensures
            final(self).wf(),
            final(self)@ == old(self)@.spec_apply_frontend(apply_frontend),
    {
        self.front.set_frontend(apply_frontend);
    }

    /// Returns the models as they are to be written back to the model
    /// files, in the order of the model list: every hotword with the
    /// sensitivity that the detector currently holds for it. The detector
    /// itself is not changed, whatever becomes of the write.
    pub fn update_model(&self) -> (out: Vec<HotwordModel>)
        requires
            self.wf(),
        ensures
            model_views(out@) == spec_persisted(self@.models, self@.sensitivities),
    {
        let ghost views = self@.models;
        let ghost wanted = spec_persisted(views, self@.sensitivities);
        let mut out: Vec<HotwordModel> = Vec::with_capacity(self.models.len());
        let mut g: usize = 0;
        let mut k: usize = 0;
        proof {
            assert(views.take(0) =~= Seq::<Seq<HotwordParamsView>>::empty());
        }
        while k < self.models.len()
            invariant
                k <= self.models.len(),
                self.wf(),
                views == self@.models,
                wanted == spec_persisted(views, self@.sensitivities),
                g == spec_offset(views, k as int),
                g <= flat(views).len(),
                out@.len() == k,
                forall|m: int| 0 <= m < k ==> (#[trigger] out@[m])@ == wanted[m],
            decreases self.models.len() - k,
        {
            let model = &self.models[k];
            let count: usize = model.hotwords.len();
            proof {
                lemma_offset_step(views, k as int);
                lemma_offset_le(views, k as int + 1);
                assert(views[k as int].len() == count);
            }
            let mut hotwords: Vec<HotwordParams> = Vec::with_capacity(count);
            let mut j: usize = 0;
            while j < count
                invariant
                    j <= count,
                    k < self.models.len(),
                    count == self.models@[k as int].hotwords@.len(),
                    self.wf(),
                    views == self@.models,
                    wanted == spec_persisted(views, self@.sensitivities),
                    g == spec_offset(views, k as int) + j,
                    spec_offset(views, k as int) + count <= flat(views).len(),
                    hotwords@.len() == j,
                    forall|m: int| 0 <= m < j ==> (#[trigger] hotwords@[m])@ == wanted[k as int][m],
                decreases count - j,
            {
                let source = &self.models[k].hotwords[j];
                let weights: Vec<i32> = copy_weights(&source.weights);
                let sensitivity: String = self.sensitivities.entry(g);
                hotwords.push(
                    HotwordParams {
                        weights,
                        bias: source.bias,
                        min_amplitude: source.min_amplitude,
                        sensitivity,
                    },
                );
                assert(views[k as int][j as int] == source@);
                j += 1;
                g += 1;
            }
            let rebuilt = HotwordModel { hotwords };
            assert(rebuilt@ =~= wanted[k as int]);
            out.push(rebuilt);
            k += 1;
        }
        assert(model_views(out@) =~= wanted);
        out
    }

    /// Says what became of writing the models back, given for every model
    /// file, in the order of the model list, whether its write succeeded:
    /// a persist failure unless every file was written. The detector is not
    /// changed either way.
    pub fn confirm_update(&self, written: &[bool]) -> (r: Result<(), EngineError>)
        ensures
            r == spec_confirm_update(self@.models.len(), written@),
    {
        if written.len() != self.models.len() {
            return Err(EngineError::PersistFailure);
        }
        let mut i: usize = 0;
        while i < written.len()
            invariant
                i <= written.len(),
                forall|k: int| 0 <= k < i ==> #[trigger] written@[k],
            decreases written.len() - i,
        {
            if !written[i] {
                return Err(EngineError::PersistFailure);
            }
            i += 1;
        }
        Ok(())
    }

    /// Returns the number of hotwords; their indices run from 1 to it.
    pub fn num_hotwords(&self) -> (n: i32)
        requires
            self.wf(),
        ensures
            n == self@.hotwords().len(),
            n >= 1,
    {
        self.scorers.len() as i32
    }

    /// Returns the model file and the place in it where the hotword with a
    /// given index stands, or `None` where no hotword has that index.
    pub fn locate(&self, hotword: i32) -> (slot: Option<Slot>)
        requires
            self.wf(),
        ensures
            match slot {
                Some(s) => 1 <= hotword <= self@.hotwords().len() && s == spec_table(
                    self@.models,
                )[hotword - 1],
                None => !(1 <= hotword <= self@.hotwords().len()),
            },
    {
        proof {
            lemma_views_fit(&self.models);
            lemma_table(self@.models);
        }
        if hotword < 1 || hotword as usize > self.table.len() {
            None
        } else {
            Some(self.table[(hotword - 1) as usize])
        }
    }

    /// Returns the sampling rate that the detector requires.
    pub fn sample_rate(&self) -> (r: i32)
        ensures
            r == self@.front.resource.format.sample_rate,
    {
        self.front.resource().format.sample_rate
    }

    /// Returns the number of channels that the detector requires.
    pub fn num_channels(&self) -> (r: i32)
        ensures
            r == self@.front.resource.format.num_channels,
    {
        self.front.resource().format.num_channels
    }

    /// Returns the bits per sample of the detector's native PCM encoding.
    pub fn bits_per_sample(&self) -> (r: i32)
        ensures
            r == self@.front.resource.format.bits_per_sample,
    {
        self.front.resource().format.bits_per_sample
    }

    /// Gives the detector up.
    pub fn destroy(self) {
    }
}

/// Lists and models that are held in memory have lengths that fit a
/// machine word.
proof fn lemma_views_fit(models: &Vec<HotwordModel>)
    ensures
        model_views(models@).len() <= usize::MAX,
        forall|k: int|
            0 <= k < model_views(models@).len() ==> (#[trigger] model_views(models@)[k]).len()
                <= usize::MAX,
{
    assert(models@.len() == models.len());
    assert forall|k: int| 0 <= k < model_views(models@).len() implies (#[trigger] model_views(
        models@,
    )[k]).len() <= usize::MAX by {
        assert(model_views(models@)[k].len() == models@[k].hotwords.len());
    }
}

fn copy_weights(weights: &Vec<i32>) -> (out: Vec<i32>)
    ensures
        out@ == weights@,
{
    let mut out: Vec<i32> = Vec::with_capacity(weights.len());
    let mut i: usize = 0;
    while i < weights.len()
        invariant
            i <= weights.len(),
            out@ == weights@.take(i as int),
        decreases weights.len() - i,
    {
        out.push(weights[i]);
        assert(weights@.take(i as int).push(weights@[i as int]) =~= weights@.take(i + 1));
        i += 1;
    }
    assert(weights@.take(i as int) =~= weights@);
    out
}

/// The hotwords before any file are among all hotwords.
pub proof fn lemma_offset_le(models: Seq<Seq<HotwordParamsView>>, k: int)
    requires
        0 <= k <= models.len(),
    ensures
        spec_offset(models, k) <= flat(models).len(),
    decreases models.len() - k,
{
    if k < models.len() {
        lemma_offset_step(models, k);
        lemma_offset_le(models, k + 1);
    } else {
        assert(models.take(k) =~= models);
    }
}

/// Once a model fails to load and none before it did, it is the first to
/// fail however many more models follow.
pub proof fn lemma_first_failing_found(
    resource: Resource,
    models: Seq<Seq<HotwordParamsView>>,
    k: nat,
    n: nat,
)
    requires
        first_failing(resource, models, k) is None,
        !model_loads(resource, models, k as int),
        k < n,
    ensures
        first_failing(resource, models, n) == Some(k),
    decreases n,
{
    if n > k + 1 {
        lemma_first_failing_found(resource, models, k, (n - 1) as nat);
    }
}

} // verus!

//! Hotword models: the scoring parameters of the hotwords that a model file
//! declares, and the table that gives every hotword of an engine its index.
//!
//! The hotwords of an engine are those of its model files, in the order of
//! the files and, within a file, in the order in which the file declares
//! them. The first hotword has index 1.

use vstd::prelude::*;
use crate::resource::Resource;
use crate::sensitivity::is_sensitivity;
use crate::text::{split, split_text, texts};

verus! {

/// The scoring parameters of one hotword.
#[derive(Debug, Clone)]
pub struct HotwordParams {
    /// One weight per feature, in millionths of score per feature unit.
    pub weights: Vec<i32>,
    /// The score of an all-zero feature vector, in millionths.
    pub bias: i32,
    /// The frame amplitude below which the hotword scores nothing.
    pub min_amplitude: i32,
    /// The sensitivity that the hotword starts with.
    pub sensitivity: String,
}

/// The mathematical value of [`HotwordParams`].
pub struct HotwordParamsView {
    pub weights: Seq<i32>,
    pub bias: i32,
    pub min_amplitude: i32,
    pub sensitivity: Seq<char>,
}

impl View for HotwordParams {
    type V = HotwordParamsView;

    open spec fn view(&self) -> HotwordParamsView {
        HotwordParamsView {
            weights: self.weights@,
            bias: self.bias,
            min_amplitude: self.min_amplitude,
            sensitivity: self.sensitivity@,
        }
    }
}

/// The contents of one model file: one or more hotwords.
#[derive(Debug, Clone)]
pub struct HotwordModel {
    pub hotwords: Vec<HotwordParams>,
}

impl View for HotwordModel {
    type V = Seq<HotwordParamsView>;

    open spec fn view(&self) -> Seq<HotwordParamsView> {
        Seq::new(self.hotwords@.len(), |j: int| self.hotwords@[j]@)
    }
}

/// Cuts a model list, the paths of model files separated by commas, into
/// the paths, in the order of the list.
pub fn model_paths(model_str: &str) -> (paths: Vec<String>)
    ensures
        texts(paths@) == split(model_str@, ','),
        paths@.len() >= 1,
{
    split_text(model_str, ',')
}

/// The mathematical values of a list of models.
pub open spec fn model_views(models: Seq<HotwordModel>) -> Seq<Seq<HotwordParamsView>> {
    Seq::new(models.len(), |k: int| models[k]@)
}

/// Whether a hotword fits a resource: one weight per feature and a
/// well-formed sensitivity.
pub open spec fn hotword_valid(resource: Resource, hotword: HotwordParamsView) -> bool {
    &&& hotword.weights.len() == resource.feature_dim
    &&& is_sensitivity(hotword.sensitivity)
}

/// Whether a model fits a resource: it declares a hotword, and every
/// hotword fits.
pub open spec fn model_valid(resource: Resource, model: Seq<HotwordParamsView>) -> bool {
    &&& model.len() >= 1
    &&& forall|j: int| 0 <= j < model.len() ==> hotword_valid(resource, #[trigger] model[j])
}

/// The hotwords of a list of models in index order: hotword `i` of the
/// result has index `i + 1`.
pub open spec fn flat(models: Seq<Seq<HotwordParamsView>>) -> Seq<HotwordParamsView>
    decreases models.len(),
{
    if models.len() == 0 {
        Seq::empty()
    } else {
        flat(models.drop_last()) + models.last()
    }
}

/// Where a hotword stands: in which model file, and at which place in it.
#[derive(Debug, Clone, Copy, PartialEq, Eq, Structural)]
pub struct Slot {
    /// Position of the model file in the model list.
    pub file: usize,
    /// Position of the hotword among those of its file.
    pub entry: usize,
}

/// The slots of one model file.
pub open spec fn file_slots(file: nat, count: nat) -> Seq<Slot> {
    Seq::new(count, |j: int| Slot { file: file as usize, entry: j as usize })
}

/// The index table of a list of models: entry `i` is the slot of the
/// hotword with index `i + 1`.
pub open spec fn spec_table(models: Seq<Seq<HotwordParamsView>>) -> Seq<Slot>
    decreases models.len(),
{
    if models.len() == 0 {
        Seq::empty()
    } else {
        spec_table(models.drop_last()) + file_slots(
            (models.len() - 1) as nat,
            models.last().len(),
        )
    }
}

/// The index of the first hotword of model file `k`, less one: the number
/// of hotwords that the files before it declare.
pub open spec fn spec_offset(models: Seq<Seq<HotwordParamsView>>, k: int) -> nat {
    flat(models.take(k)).len()
}

/// The index table has one slot per hotword, and every slot names the
/// place where that hotword stands.
pub proof fn lemma_table(models: Seq<Seq<HotwordParamsView>>)
    requires
        models.len() <= usize::MAX,
        forall|k: int| 0 <= k < models.len() ==> (#[trigger] models[k]).len() <= usize::MAX,
    ensures
        spec_table(models).len() == flat(models).len(),
        forall|i: int|
            0 <= i < flat(models).len() ==> {
                let slot = #[trigger] spec_table(models)[i];
                &&& slot.file < models.len()
                &&& slot.entry < models[slot.file as int].len()
                &&& models[slot.file as int][slot.entry as int] == flat(models)[i]
                &&& i == spec_offset(models, slot.file as int) + slot.entry
            },
    decreases models.len(),
{
    if models.len() > 0 {
        let head = models.drop_last();
        lemma_table(head);
        let n = flat(head).len();
        assert(models.take(models.len() - 1) =~= head);
        assert forall|i: int| 0 <= i < flat(models).len() implies {
            let slot = #[trigger] spec_table(models)[i];
            &&& slot.file < models.len()
            &&& slot.entry < models[slot.file as int].len()
            &&& models[slot.file as int][slot.entry as int] == flat(models)[i]
            &&& i == spec_offset(models, slot.file as int) + slot.entry
        } by {
            if i < n {
                let slot = spec_table(head)[i];
                assert(spec_table(models)[i] == slot);
                assert(head[slot.file as int] == models[slot.file as int]);
                assert(models.take(slot.file as int) =~= head.take(slot.file as int));
            } else {
                let slot = spec_table(models)[i];
                assert(slot == file_slots((models.len() - 1) as nat, models.last().len())[i - n]);
            }
        }
    }
}

/// The hotwords before a later file include those before an earlier one.
pub proof fn lemma_offset_step(models: Seq<Seq<HotwordParamsView>>, k: int)
    requires
        0 <= k < models.len(),
    ensures
        spec_offset(models, k + 1) == spec_offset(models, k) + models[k].len(),
        flat(models.take(k + 1)) == flat(models.take(k)) + models[k],
{
    assert(models.take(k + 1).drop_last() =~= models.take(k));
    assert(models.take(k + 1).last() == models[k]);
}

} // verus!

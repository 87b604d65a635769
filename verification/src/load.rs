//! Building engines from the bytes of their files.
//!
//! The resource file is read first; the model files are read in the order of
//! the model list, up to the first that is no model file. The engine is
//! then built from what was read, and a failure is reported for the first
//! file, in list order, that failed in either way.

use vstd::prelude::*;
use crate::codec::{decode_model, decode_resource, spec_decode_model, spec_decode_resource};
use crate::detect::{DetectorView, SnowboyDetect};
use crate::error::EngineError;
use crate::model::{model_views, HotwordModel, HotwordParamsView};
use crate::vad::{SnowboyVad, VadView};

verus! {

/// The bytes of a list of files.
pub open spec fn file_views(files: Seq<Vec<u8>>) -> Seq<Seq<u8>> {
    Seq::new(files.len(), |k: int| files[k]@)
}

/// How many of the first `n` files can be read as model files before the
/// first that cannot.
pub open spec fn readable_count(files: Seq<Seq<u8>>, n: nat) -> nat
    decreases n,
{
    if n == 0 {
        0
    } else {
        let before = readable_count(files, (n - 1) as nat);
        if before == n - 1 && spec_decode_model(files[n - 1]) is Some {
            n
        } else {
            before
        }
    }
}

/// The models of the first `count` files.
pub open spec fn read_models(files: Seq<Seq<u8>>, count: nat) -> Seq<Seq<HotwordParamsView>> {
    Seq::new(count, |k: int| spec_decode_model(files[k])->0)
}

/// What building a detector from files gives. A resource file that cannot
/// be read, or whose resource describes no usable pipeline, is a resource
/// load error. Otherwise the first model file, in list order, that cannot
/// be read or whose model cannot be loaded is a model load error with its
/// position; so is an empty list, at position 0.
pub open spec fn spec_load_detector(resource_file: Seq<u8>, model_files: Seq<Seq<u8>>) -> Result<
    DetectorView,
    EngineError,
> {
    match spec_decode_resource(resource_file) {
        None => Err(EngineError::ResourceLoadError),
        Some(resource) => {
            let count = readable_count(model_files, model_files.len());
            match DetectorView::spec_load(resource, read_models(model_files, count)) {
                Err(e) => Err(e),
                Ok(v) => if count < model_files.len() {
                    Err(EngineError::ModelLoadError(count as usize))
                } else {
                    Ok(v)
                },
            }
        },
    }
}

/// What building a voice-activity detector from a resource file gives.
pub open spec fn spec_load_vad(resource_file: Seq<u8>) -> Result<VadView, EngineError> {
    match spec_decode_resource(resource_file) {
        None => Err(EngineError::ResourceLoadError),
        Some(resource) => if resource.valid() {
            Ok(VadView::spec_initial(resource))
        } else {
            Err(EngineError::ResourceLoadError)
        },
    }
}

/// Once a file cannot be read, no later file counts as read.
pub proof fn lemma_readable_stops(files: Seq<Seq<u8>>, k: nat, n: nat)
    requires
        readable_count(files, k) == k,
        k < n,
        spec_decode_model(files[k as int]) is None,
    ensures
        readable_count(files, n) == k,
    decreases n,
{
    if n > k + 1 {
        lemma_readable_stops(files, k, (n - 1) as nat);
    }
}

impl SnowboyDetect {
    /// Builds a detector from the bytes of a resource file and of the model
    /// files, in the order of the model list.
    pub fn load(resource_file: &[u8], model_files: &Vec<Vec<u8>>) -> (r: Result<
        SnowboyDetect,
        EngineError,
    >)
        ensures
            match r {
                Ok(d) => d.wf() && spec_load_detector(resource_file@, file_views(model_files@))
                    == Ok::<DetectorView, EngineError>(d@),
                Err(e) => spec_load_detector(resource_file@, file_views(model_files@)) == Err::<
                    DetectorView,
                    EngineError,
                >(e),
            },
    {
        let resource = match decode_resource(resource_file) {
            None => {
                return Err(EngineError::ResourceLoadError);
            },
            Some(r) => r,
        };
        let ghost files = file_views(model_files@);
        let mut models: Vec<HotwordModel> = Vec::new();
        let mut k: usize = 0;
        let mut failed: bool = false;
        proof {
            assert(model_views(models@) =~= read_models(files, 0));
        }
        while k < model_files.len() && !failed
            invariant
                k <= model_files.len(),
                files == file_views(model_files@),
                readable_count(files, k as nat) == k,
                models@.len() == k,
                model_views(models@) == read_models(files, k as nat),
                failed ==> k < model_files.len() && spec_decode_model(files[k as int]) is None,
            decreases model_files.len() - k + (if failed { 0int } else { 1int }),
        {
            assert(files[k as int] == model_files@[k as int]@);
            match decode_model(model_files[k].as_slice()) {
                Some(model) => {
                    let ghost before = model_views(models@);
                    let ghost read = model@;
                    models.push(model);
                    proof {
                        let now = model_views(models@);
                        let wanted = read_models(files, (k + 1) as nat);
                        assert(now.len() == wanted.len());
                        assert forall|j: int| 0 <= j < now.len() implies now[j] == wanted[j] by {
                            if j < k {
                                assert(now[j] == before[j]);
                                assert(before[j] == read_models(files, k as nat)[j]);
                            } else {
                                assert(now[j] == read);
                            }
                        }
                        assert(now =~= wanted);
                    }
                    k += 1;
                },
                None => {
                    failed = true;
                },
            }
        }
        proof {
            if failed {
                lemma_readable_stops(files, k as nat, files.len());
            }
        }
        match SnowboyDetect::new(resource, models) {
            Err(e) => Err(e),
            Ok(d) => if failed {
                Err(EngineError::ModelLoadError(k))
            } else {
                Ok(d)
            },
        }
    }
}

impl SnowboyVad {
    /// Builds a voice-activity detector from the bytes of a resource file.
    pub fn load(resource_file: &[u8]) -> (r: Result<SnowboyVad, EngineError>)
        ensures
            match r {
                Ok(v) => v.wf() && spec_load_vad(resource_file@) == Ok::<VadView, EngineError>(v@),
                Err(e) => spec_load_vad(resource_file@) == Err::<VadView, EngineError>(e),
            },
    {
        match decode_resource(resource_file) {
            None => Err(EngineError::ResourceLoadError),
            Some(resource) => SnowboyVad::new(resource),
        }
    }
}

} // verus!

//! Errors and the integer codes that a detection call reports.

use vstd::prelude::*;

verus! {

/// Code reported when no frame of the call held speech.
pub const CODE_SILENCE: i32 = -2;

/// Code reported when the call was refused; the engine is left as it was.
pub const CODE_ERROR: i32 = -1;

/// Code reported when speech was heard and no hotword fired.
pub const CODE_NO_EVENT: i32 = 0;

/// What can go wrong when an engine is built or used.
#[derive(Debug, Clone, Copy, PartialEq, Eq, Structural)]
pub enum EngineError {
    /// The acoustic resource is missing or describes an unusable pipeline.
    ResourceLoadError,
    /// The hotword model at this position of the model list is unusable.
    ModelLoadError(usize),
    /// The chunk was recorded with another channel layout than the engine's.
    FormatMismatch,
    /// The sensitivity list has another number of entries than there are hotwords.
    SensitivityCountMismatch,
    /// An entry of the sensitivity list is not a decimal number between 0 and 1.
    InvalidSensitivity,
    /// The chunk could not be processed; the engine is left as it was.
    DetectionFault,
    /// A model could not be written back to its storage.
    PersistFailure,
}

/// What one detection call found.
#[derive(Debug, Clone, Copy, PartialEq, Eq, Structural)]
pub enum Detection {
    /// No frame of the call held speech and no hotword fired.
    Silence,
    /// Speech was heard and no hotword fired.
    NonSilence,
    /// The hotword with this 1-based index fired.
    Hotword(i32),
}

impl Detection {
    /// The integer code of a detection: -2, 0, or the hotword's index.
    pub open spec fn spec_code(self) -> int {
        match self {
            Detection::Silence => -2,
            Detection::NonSilence => 0,
            Detection::Hotword(i) => i as int,
        }
    }

    /// The detection that a code stands for; codes below -2 and -1 stand for none.
    pub open spec fn spec_from_code(code: int) -> Option<Detection> {
        if code == -2 {
            Some(Detection::Silence)
        } else if code == 0 {
            Some(Detection::NonSilence)
        } else if 0 < code <= i32::MAX {
            Some(Detection::Hotword(code as i32))
        } else {
            None
        }
    }

    /// Returns the integer code of this detection.
    pub fn code(self) -> (c: i32)
        ensures
            c == self.spec_code(),
    {
        match self {
            Detection::Silence => CODE_SILENCE,
            Detection::NonSilence => CODE_NO_EVENT,
            Detection::Hotword(i) => i,
        }
    }

    /// Reads a detection back from its integer code.
    pub fn from_code(code: i32) -> (d: Option<Detection>)
        ensures
            d == Self::spec_from_code(code as int),
    {
        if code == CODE_SILENCE {
            Some(Detection::Silence)
        } else if code == CODE_NO_EVENT {
            Some(Detection::NonSilence)
        } else if code > 0 {
            Some(Detection::Hotword(code))
        } else {
            None
        }
    }
}

/// Merges the codes of two stretches of audio into the code of both together:
/// the lowest hotword index if any fired, else speech if either held speech,
/// else silence.
pub open spec fn spec_merge_codes(a: int, b: int) -> int {
    if a > 0 && b > 0 {
        if a <= b { a } else { b }
    } else if a > 0 {
        a
    } else if b > 0 {
        b
    } else if a == 0 || b == 0 {
        0
    } else {
        -2
    }
}

/// Merges the codes of two stretches of audio into the code of both together.
pub fn merge_codes(a: i32, b: i32) -> (c: i32)
    ensures
        c == spec_merge_codes(a as int, b as int),
{
    if a > 0 && b > 0 {
        if a <= b { a } else { b }
    } else if a > 0 {
        a
    } else if b > 0 {
        b
    } else if a == 0 || b == 0 {
        CODE_NO_EVENT
    } else {
        CODE_SILENCE
    }
}

/// Merging codes is associative, and silence is neutral among the codes of
/// processed audio (-2, 0 and the hotword indices).
pub proof fn lemma_merge_codes_monoid(a: int, b: int, c: int)
    ensures
        spec_merge_codes(spec_merge_codes(a, b), c) == spec_merge_codes(a, spec_merge_codes(b, c)),
        a == -2 || a >= 0 ==> spec_merge_codes(-2, a) == a && spec_merge_codes(a, -2) == a,
{
}

} // verus!

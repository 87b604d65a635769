//! Streaming keyword spotting and voice-activity detection over PCM audio.
//!
//! Audio arrives in chunks of any size. Every chunk is normalised to mono
//! 16-bit samples, cut into overlapping analysis frames, optionally
//! conditioned by the frontend, turned into feature vectors and classified.
//! A [`SnowboyVad`] reports silence or speech; a [`SnowboyDetect`] also runs
//! one scorer per loaded hotword and reports the hotword that fired.
//!
//! All arithmetic is integer arithmetic. Floating-point values cross the
//! boundary of the library as IEEE-754 bit patterns.
//!
//! The library touches no file. Resources and models come in as values, or
//! as the bytes of their files; models that are to be written back go out
//! as values that encode to bytes.
//!
//! Every engine has a mathematical value, its view, and every operation
//! says in its contract how it changes that value and what it returns. The
//! module [`laws`] states what follows for whole series of calls, and the
//! module [`silence`] what the engines make of samples that are zero.

pub mod audio;
pub mod codec;
pub mod detect;
pub mod error;
pub mod feature;
pub mod frame;
pub mod front;
pub mod frontend;
pub mod laws;
pub mod load;
pub mod model;
pub mod resource;
pub mod sample;
pub mod scorer;
pub mod sensitivity;
pub mod silence;
pub mod text;
pub mod vad;

pub use audio::{AudioChunk, Samples};
pub use detect::SnowboyDetect;
pub use error::{Detection, EngineError};
pub use model::{HotwordModel, HotwordParams, Slot};
pub use resource::{Resource, SampleFormat};
pub use sample::Gain;
pub use vad::SnowboyVad;

use rsnowboy::{
    AudioChunk, Detection, EngineError, Gain, HotwordModel, HotwordParams, Resource, SampleFormat,
    Samples, Slot, SnowboyDetect,
};

const PATTERN: [i16; 4] = [10000, -10000, 10000, -10000];
const NOISE: [i16; 4] = [5000, 5000, 5000, 5000];
const QUIET: [i16; 4] = [0, 0, 0, 0];

fn resource() -> Resource {
    Resource {
        format: SampleFormat { sample_rate: 16000, num_channels: 1, bits_per_sample: 16 },
        frame_len: 4,
        hop: 4,
        feature_dim: 2,
        vad_level: 1000,
        vad_hangover: 0,
    }
}

fn hotword(weights: Vec<i32>, sensitivity: &str) -> HotwordParams {
    HotwordParams { weights, bias: 0, min_amplitude: 0, sensitivity: sensitivity.to_string() }
}

/// A model that never fires.
fn a_model() -> HotwordModel {
    HotwordModel { hotwords: vec![hotword(vec![0, 0], "0.5")] }
}

/// A model that fires on fast alternation.
fn b_model() -> HotwordModel {
    HotwordModel { hotwords: vec![hotword(vec![0, 100], "0.5")] }
}

fn detector() -> SnowboyDetect {
    SnowboyDetect::new(resource(), vec![a_model(), b_model()]).unwrap()
}

#[test]
fn two_single_hotword_models_make_two_hotwords() {
    let d = detector();
    assert_eq!(d.num_hotwords(), 2);
    assert_eq!(d.get_sensitivity(), "0.5,0.5");
    assert_eq!(d.sample_rate(), 16000);
    assert_eq!(d.num_channels(), 1);
    assert_eq!(d.bits_per_sample(), 16);
}

#[test]
fn silence_is_reported_again_and_again() {
    let mut d = detector();
    for _ in 0..10 {
        assert_eq!(d.run_short_array_detection(&QUIET, 4, false), -2);
    }
}

#[test]
fn the_second_hotword_fires_once_per_segment() {
    let mut d = detector();
    assert_eq!(d.run_short_array_detection(&PATTERN, 4, false), 0);
    assert_eq!(d.run_short_array_detection(&PATTERN, 4, false), 0);
    assert_eq!(d.run_short_array_detection(&PATTERN, 4, false), 2);
    assert_eq!(d.run_short_array_detection(&PATTERN, 4, false), 0);
    assert_eq!(d.run_short_array_detection(&PATTERN, 4, false), 0);
    assert_eq!(d.run_short_array_detection(&QUIET, 4, false), -2);
    assert_eq!(d.run_short_array_detection(&QUIET, 4, false), -2);
    assert_eq!(d.run_short_array_detection(&QUIET, 4, false), -2);
    assert_eq!(d.run_short_array_detection(&QUIET, 4, false), -2);
    assert_eq!(d.run_short_array_detection(&PATTERN, 4, false), 0);
    assert_eq!(d.run_short_array_detection(&PATTERN, 4, false), 2);
    assert_eq!(d.run_short_array_detection(&PATTERN, 4, false), 0);
}

#[test]
fn a_short_pause_does_not_end_the_segment() {
    let mut d = detector();
    for expected in [0, 0, 2, 0] {
        assert_eq!(d.run_short_array_detection(&PATTERN, 4, false), expected);
    }
    assert_eq!(d.run_short_array_detection(&QUIET, 4, false), -2);
    assert_eq!(d.run_short_array_detection(&PATTERN, 4, false), 0);
    assert_eq!(d.run_short_array_detection(&QUIET, 4, false), -2);
    assert_eq!(d.run_short_array_detection(&QUIET, 4, false), -2);
    assert_eq!(d.run_short_array_detection(&PATTERN, 4, false), 2);
}

#[test]
fn noise_below_the_threshold_is_speech_without_a_hotword() {
    let mut d = detector();
    for _ in 0..20 {
        assert_eq!(d.run_short_array_detection(&NOISE, 4, false), 0);
    }
}

#[test]
fn a_call_reports_the_hotword_that_fired_within_it() {
    let mut d = detector();
    let mut long = Vec::new();
    for _ in 0..4 {
        long.extend_from_slice(&PATTERN);
    }
    assert_eq!(d.run_short_array_detection(&long, 16, false), 2);
    assert_eq!(d.run_short_array_detection(&long, 16, false), 0);
}

#[test]
fn the_lowest_index_wins() {
    let mut d = SnowboyDetect::new(resource(), vec![b_model(), b_model(), a_model()]).unwrap();
    assert_eq!(d.num_hotwords(), 3);
    for expected in [0, 0, 1, 0] {
        assert_eq!(d.run_short_array_detection(&PATTERN, 4, false), expected);
    }
    let mut d = SnowboyDetect::new(resource(), vec![b_model(), b_model()]).unwrap();
    assert_eq!(d.set_sensitivity("0.5,0.9"), Ok(()));
    for expected in [2, 0, 1, 0] {
        assert_eq!(d.run_short_array_detection(&PATTERN, 4, false), expected);
    }
    let mut d = SnowboyDetect::new(resource(), vec![b_model(), b_model()]).unwrap();
    assert_eq!(d.set_sensitivity("0.5,0.9"), Ok(()));
    let mut long = Vec::new();
    for _ in 0..3 {
        long.extend_from_slice(&PATTERN);
    }
    assert_eq!(d.run_short_array_detection(&long, 12, false), 1);
}

#[test]
fn hotwords_are_numbered_across_model_files() {
    let two = HotwordModel { hotwords: vec![hotword(vec![0, 0], "0.1"), hotword(vec![0, 100], "0.2")] };
    let d = SnowboyDetect::new(resource(), vec![a_model(), two.clone(), b_model()]).unwrap();
    assert_eq!(d.num_hotwords(), 4);
    assert_eq!(d.get_sensitivity(), "0.5,0.1,0.2,0.5");
    assert_eq!(d.locate(1), Some(Slot { file: 0, entry: 0 }));
    assert_eq!(d.locate(2), Some(Slot { file: 1, entry: 0 }));
    assert_eq!(d.locate(3), Some(Slot { file: 1, entry: 1 }));
    assert_eq!(d.locate(4), Some(Slot { file: 2, entry: 0 }));
    assert_eq!(d.locate(0), None);
    assert_eq!(d.locate(5), None);
    assert_eq!(d.locate(-1), None);
    assert_eq!(d.locate(i32::MAX), None);
}

#[test]
fn the_second_hotword_of_a_file_fires_under_its_index() {
    let two = HotwordModel { hotwords: vec![hotword(vec![0, 0], "0.5"), hotword(vec![0, 100], "0.5")] };
    let mut d = SnowboyDetect::new(resource(), vec![a_model(), two]).unwrap();
    for expected in [0, 0, 3, 0] {
        assert_eq!(d.run_short_array_detection(&PATTERN, 4, false), expected);
    }
}

#[test]
fn sensitivities_are_read_back_as_set() {
    let mut d = detector();
    for text in ["0.4,0.8", "1,0", "0.50,0.500", "0.123456789,1.000"] {
        assert_eq!(d.set_sensitivity(text), Ok(()));
        assert_eq!(d.get_sensitivity(), text);
    }
}

#[test]
fn a_wrong_count_is_refused_and_changes_nothing() {
    let mut d = detector();
    assert_eq!(d.set_sensitivity("0.25,0.75"), Ok(()));
    for text in ["0.5", "0.1,0.2,0.3", "", ",,", "x"] {
        assert_eq!(d.set_sensitivity(text), Err(EngineError::SensitivityCountMismatch));
        assert_eq!(d.get_sensitivity(), "0.25,0.75");
    }
}

#[test]
fn a_malformed_entry_is_refused_and_changes_nothing() {
    let mut d = detector();
    assert_eq!(d.set_sensitivity("0.25,0.75"), Ok(()));
    for text in ["0.5,1.5", "0.5,", ",", "a,b", "0.5,-0.5", "0.5,0.5 "] {
        assert_eq!(d.set_sensitivity(text), Err(EngineError::InvalidSensitivity));
        assert_eq!(d.get_sensitivity(), "0.25,0.75");
    }
}

#[test]
fn a_higher_sensitivity_fires_sooner() {
    let mut d = detector();
    assert_eq!(d.set_sensitivity("0.5,0.9"), Ok(()));
    assert_eq!(d.run_short_array_detection(&PATTERN, 4, false), 2);
    let mut d = detector();
    assert_eq!(d.set_sensitivity("0.5,0.7"), Ok(()));
    assert_eq!(d.run_short_array_detection(&PATTERN, 4, false), 0);
    assert_eq!(d.run_short_array_detection(&PATTERN, 4, false), 2);
    let mut d = detector();
    assert_eq!(d.set_sensitivity("0.5,0.75"), Ok(()));
    assert_eq!(d.run_short_array_detection(&PATTERN, 4, false), 0);
    assert_eq!(d.run_short_array_detection(&PATTERN, 4, false), 2);
}

#[test]
fn sensitivity_zero_never_fires_and_one_fires_on_any_score() {
    let mut d = detector();
    assert_eq!(d.set_sensitivity("0,0"), Ok(()));
    for _ in 0..100 {
        assert_eq!(d.run_short_array_detection(&PATTERN, 4, false), 0);
    }
    let mut d = detector();
    assert_eq!(d.set_sensitivity("1,1"), Ok(()));
    assert_eq!(d.run_short_array_detection(&QUIET, 4, false), -2);
    assert_eq!(d.run_short_array_detection(&NOISE, 4, false), 0);
    assert_eq!(d.run_short_array_detection(&[10, -10, 10, -10], 4, false), 2);
}

#[test]
fn the_audio_gain_scales_what_the_scorers_see() {
    let mut d = detector();
    d.set_audio_gain(Gain::from_f32_bits(0.5f32.to_bits()).unwrap());
    for expected in [0, 0, 0, 2, 0] {
        assert_eq!(d.run_short_array_detection(&PATTERN, 4, false), expected);
    }
    let mut d = detector();
    d.set_audio_gain(Gain::from_f32_bits(0.0f32.to_bits()).unwrap());
    for _ in 0..10 {
        assert_eq!(d.run_short_array_detection(&PATTERN, 4, false), -2);
    }
}

#[test]
fn a_hotword_needs_its_least_amplitude() {
    let loud_only = HotwordModel {
        hotwords: vec![HotwordParams {
            weights: vec![0, 100],
            bias: 0,
            min_amplitude: 10001,
            sensitivity: "0.5".to_string(),
        }],
    };
    let mut d = SnowboyDetect::new(resource(), vec![loud_only.clone()]).unwrap();
    for _ in 0..10 {
        assert_eq!(d.run_short_array_detection(&PATTERN, 4, false), 0);
    }
    let mut d = SnowboyDetect::new(resource(), vec![loud_only]).unwrap();
    for expected in [0, 0, 1, 0] {
        assert_eq!(d.run_short_array_detection(&[10001, -10001, 10001, -10001], 4, false), expected);
    }
}

#[test]
fn every_encoding_reaches_the_scorers() {
    let mut d = detector();
    let bytes: [u8; 4] = [168, 88, 168, 88];
    for expected in [0, 0, 2, 0] {
        assert_eq!(d.run_char_detection(&bytes, false), expected);
    }
    let mut d = detector();
    let wide: [i32; 4] = [10000 << 16, -10000 << 16, 10000 << 16, -10000 << 16];
    for expected in [0, 0, 2, 0] {
        assert_eq!(d.run_integer_array_detection(&wide, 4, false), expected);
    }
    let mut d = detector();
    let floats: [u32; 4] = [0.3f32.to_bits(), (-0.3f32).to_bits(), 0.3f32.to_bits(), (-0.3f32).to_bits()];
    for expected in [0, 0, 2, 0] {
        assert_eq!(d.run_float_array_detection(&floats, 4, false), expected);
    }
}

#[test]
fn a_refused_chunk_is_minus_one_and_changes_nothing() {
    let mut d = detector();
    assert_eq!(d.run_short_array_detection(&PATTERN, 4, false), 0);
    assert_eq!(d.run_short_array_detection(&PATTERN, 4, false), 0);
    assert_eq!(d.run_short_array_detection(&PATTERN, 5, false), -1);
    assert_eq!(d.run_short_array_detection(&PATTERN, -4, false), -1);
    assert_eq!(d.run_float_array_detection(&[f32::NAN.to_bits(); 4], 4, false), -1);
    assert_eq!(d.run_float_array_detection(&[f32::NEG_INFINITY.to_bits(); 4], 4, true), -1);
    assert_eq!(d.run_integer_array_detection(&[0; 2], 3, false), -1);
    assert_eq!(d.run_short_array_detection(&PATTERN, 4, false), 2);
}

#[test]
fn run_reports_detections_and_errors() {
    let mut d = detector();
    let chunk = AudioChunk { samples: Samples::Signed16(&QUIET), channels: 1, is_end: false };
    assert_eq!(d.run(&chunk), Ok(Detection::Silence));
    let chunk = AudioChunk { samples: Samples::Signed16(&NOISE), channels: 1, is_end: false };
    assert_eq!(d.run(&chunk), Ok(Detection::NonSilence));
    let chunk = AudioChunk { samples: Samples::Signed16(&PATTERN), channels: 1, is_end: false };
    assert_eq!(d.run(&chunk), Ok(Detection::NonSilence));
    assert_eq!(d.run(&chunk), Ok(Detection::NonSilence));
    assert_eq!(d.run(&chunk), Ok(Detection::Hotword(2)));
    let chunk = AudioChunk { samples: Samples::Signed16(&PATTERN), channels: 2, is_end: false };
    assert_eq!(d.run(&chunk), Err(EngineError::FormatMismatch));
    let bits = [f32::NAN.to_bits()];
    let chunk = AudioChunk { samples: Samples::Float32(&bits), channels: 1, is_end: false };
    assert_eq!(d.run(&chunk), Err(EngineError::DetectionFault));
}

#[test]
fn the_channel_count_is_checked_before_the_samples() {
    let mut d = detector();
    let bits = [f32::NAN.to_bits()];
    let chunk = AudioChunk { samples: Samples::Float32(&bits), channels: 3, is_end: false };
    assert_eq!(d.run(&chunk), Err(EngineError::FormatMismatch));
}

#[test]
fn a_stereo_detector_wants_whole_sample_groups() {
    let stereo = Resource {
        format: SampleFormat { sample_rate: 16000, num_channels: 2, bits_per_sample: 16 },
        ..resource()
    };
    let mut d = SnowboyDetect::new(stereo, vec![b_model()]).unwrap();
    assert_eq!(d.num_channels(), 2);
    let data: [i16; 8] = [10000, 10000, -10000, -10000, 10000, 10000, -10000, -10000];
    assert_eq!(d.run_short_array_detection(&data, 7, false), -1);
    let chunk = AudioChunk { samples: Samples::Signed16(&data[..7]), channels: 2, is_end: false };
    assert_eq!(d.run(&chunk), Err(EngineError::DetectionFault));
    for expected in [0, 0, 1, 0] {
        assert_eq!(d.run_short_array_detection(&data, 8, false), expected);
    }
}

#[test]
fn the_end_of_an_utterance_flushes_the_rest() {
    let mut d = detector();
    assert_eq!(d.run_short_array_detection(&[10000, -10000], 2, false), -2);
    let mut d = detector();
    assert_eq!(d.run_short_array_detection(&[10000, -10000], 2, true), 0);
    let mut d = detector();
    assert_eq!(d.set_sensitivity("0.5,0.9"), Ok(()));
    assert_eq!(d.run_short_array_detection(&[10000, -10000], 2, true), 2);
    let mut d = detector();
    assert_eq!(d.run_short_array_detection(&[], 0, true), -2);
}

#[test]
fn the_frontend_conditions_what_the_scorers_see() {
    let mut d = detector();
    d.apply_frontend(true);
    assert_eq!(d.bits_per_sample(), 16);
    for expected in [0, 0, 2, 0] {
        assert_eq!(d.run_short_array_detection(&PATTERN, 4, false), expected);
    }
    let mut d = detector();
    assert_eq!(d.set_sensitivity("0.5,0.99"), Ok(()));
    assert_eq!(d.run_short_array_detection(&[250, -250, 250, -250], 4, false), -2);
    assert_eq!(d.reset(), true);
    d.apply_frontend(true);
    assert_eq!(d.run_short_array_detection(&[250, -250, 250, -250], 4, false), 2);
}

#[test]
fn reset_starts_anew_and_keeps_the_setup() {
    let mut d = detector();
    assert_eq!(d.set_sensitivity("0.3,0.5"), Ok(()));
    for expected in [0, 0, 2, 0] {
        assert_eq!(d.run_short_array_detection(&PATTERN, 4, false), expected);
    }
    assert!(d.reset());
    assert_eq!(d.get_sensitivity(), "0.3,0.5");
    assert_eq!(d.num_hotwords(), 2);
    for expected in [0, 0, 2, 0] {
        assert_eq!(d.run_short_array_detection(&PATTERN, 4, false), expected);
    }
    assert_eq!(d.run_short_array_detection(&PATTERN[..3], 3, false), -2);
    assert!(d.reset());
    assert!(d.reset());
    assert_eq!(d.run_short_array_detection(&PATTERN[..1], 1, false), -2);
    assert_eq!(d.run_short_array_detection(&PATTERN[..3], 3, false), 0);
}

#[test]
fn an_unusable_resource_is_refused_first() {
    let bad = Resource { hop: 0, ..resource() };
    assert_eq!(SnowboyDetect::new(bad, vec![a_model()]).err(), Some(EngineError::ResourceLoadError));
    assert_eq!(SnowboyDetect::new(bad, vec![]).err(), Some(EngineError::ResourceLoadError));
    let broken = HotwordModel { hotwords: vec![] };
    assert_eq!(SnowboyDetect::new(bad, vec![broken]).err(), Some(EngineError::ResourceLoadError));
}

#[test]
fn an_unusable_model_is_refused_with_its_position() {
    let no_hotword = HotwordModel { hotwords: vec![] };
    let short = HotwordModel { hotwords: vec![hotword(vec![1], "0.5")] };
    let long = HotwordModel { hotwords: vec![hotword(vec![1, 2, 3], "0.5")] };
    let bad_text = HotwordModel { hotwords: vec![hotword(vec![1, 2], "high")] };
    let second_bad = HotwordModel { hotwords: vec![hotword(vec![1, 2], "0.5"), hotword(vec![1, 2], "1.1")] };
    assert_eq!(SnowboyDetect::new(resource(), vec![]).err(), Some(EngineError::ModelLoadError(0)));
    assert_eq!(SnowboyDetect::new(resource(), vec![no_hotword.clone()]).err(), Some(EngineError::ModelLoadError(0)));
    assert_eq!(SnowboyDetect::new(resource(), vec![a_model(), short]).err(), Some(EngineError::ModelLoadError(1)));
    assert_eq!(SnowboyDetect::new(resource(), vec![a_model(), b_model(), long]).err(), Some(EngineError::ModelLoadError(2)));
    assert_eq!(SnowboyDetect::new(resource(), vec![bad_text.clone(), no_hotword]).err(), Some(EngineError::ModelLoadError(0)));
    assert_eq!(SnowboyDetect::new(resource(), vec![a_model(), second_bad, bad_text]).err(), Some(EngineError::ModelLoadError(1)));
}

#[test]
fn models_are_written_back_with_the_current_sensitivities() {
    let two = HotwordModel {
        hotwords: vec![
            HotwordParams { weights: vec![1, 2], bias: 3, min_amplitude: 4, sensitivity: "0.1".to_string() },
            HotwordParams { weights: vec![-5, 6], bias: -7, min_amplitude: 8, sensitivity: "0.2".to_string() },
        ],
    };
    let mut d = SnowboyDetect::new(resource(), vec![a_model(), two, b_model()]).unwrap();
    let unchanged = d.update_model();
    assert_eq!(unchanged.len(), 3);
    assert_eq!(unchanged[1].hotwords[1].sensitivity, "0.2");
    assert_eq!(d.set_sensitivity("0.9,0.8,0.7,0.6"), Ok(()));
    let written = d.update_model();
    assert_eq!(written.len(), 3);
    assert_eq!(written[0].hotwords.len(), 1);
    assert_eq!(written[1].hotwords.len(), 2);
    assert_eq!(written[2].hotwords.len(), 1);
    assert_eq!(written[0].hotwords[0].sensitivity, "0.9");
    assert_eq!(written[1].hotwords[0].sensitivity, "0.8");
    assert_eq!(written[1].hotwords[1].sensitivity, "0.7");
    assert_eq!(written[2].hotwords[0].sensitivity, "0.6");
    assert_eq!(written[1].hotwords[0].weights, vec![1, 2]);
    assert_eq!(written[1].hotwords[0].bias, 3);
    assert_eq!(written[1].hotwords[0].min_amplitude, 4);
    assert_eq!(written[1].hotwords[1].weights, vec![-5, 6]);
    assert_eq!(written[1].hotwords[1].bias, -7);
    assert_eq!(written[1].hotwords[1].min_amplitude, 8);
    assert_eq!(written[2].hotwords[0].weights, vec![0, 100]);
    assert_eq!(d.get_sensitivity(), "0.9,0.8,0.7,0.6");
    let reloaded = SnowboyDetect::new(resource(), written).unwrap();
    assert_eq!(reloaded.get_sensitivity(), "0.9,0.8,0.7,0.6");
}

#[test]
fn a_failed_write_is_a_persist_failure_and_changes_nothing() {
    let mut d = detector();
    assert_eq!(d.set_sensitivity("0.25,0.75"), Ok(()));
    assert_eq!(d.confirm_update(&[true, true]), Ok(()));
    assert_eq!(d.confirm_update(&[true, false]), Err(EngineError::PersistFailure));
    assert_eq!(d.confirm_update(&[false, true]), Err(EngineError::PersistFailure));
    assert_eq!(d.confirm_update(&[true]), Err(EngineError::PersistFailure));
    assert_eq!(d.confirm_update(&[]), Err(EngineError::PersistFailure));
    assert_eq!(d.confirm_update(&[true, true, true]), Err(EngineError::PersistFailure));
    assert_eq!(d.get_sensitivity(), "0.25,0.75");
    assert_eq!(d.num_hotwords(), 2);
}

#[test]
fn a_detector_can_be_given_up() {
    let d = detector();
    d.destroy();
}

#[test]
fn a_gain_and_scaled_audio_are_reported_alike() {
    let one_sample = Resource { frame_len: 1, hop: 1, feature_dim: 1, vad_level: 1, ..resource() };
    let model = HotwordModel { hotwords: vec![hotword(vec![0], "0.5")] };
    let mut raised = SnowboyDetect::new(one_sample, vec![model.clone()]).unwrap();
    raised.set_audio_gain(Gain::from_f32_bits(2.0f32.to_bits()).unwrap());
    let mut plain = SnowboyDetect::new(one_sample, vec![model.clone()]).unwrap();
    let weak = [(1.0f32 / 65536.0).to_bits()];
    let twice = [(1.0f32 / 32768.0).to_bits()];
    assert_eq!(raised.run_float_array_detection(&weak, 1, false), 0);
    assert_eq!(plain.run_float_array_detection(&twice, 1, false), 0);
    assert_eq!(plain.run_float_array_detection(&weak, 1, false), -2);
    let mut raised = SnowboyDetect::new(one_sample, vec![model.clone()]).unwrap();
    raised.set_audio_gain(Gain::from_f32_bits(100.0f32.to_bits()).unwrap());
    let mut plain = SnowboyDetect::new(one_sample, vec![model]).unwrap();
    assert_eq!(raised.run_integer_array_detection(&[1000], 1, false), 0);
    assert_eq!(plain.run_integer_array_detection(&[100_000], 1, false), 0);
    assert_eq!(plain.run_integer_array_detection(&[1000], 1, false), -2);
}

#[test]
fn a_gain_and_scaled_audio_trigger_alike() {
    let gain = 0.375f32;
    let mut raised = detector();
    raised.set_audio_gain(Gain::from_f32_bits(gain.to_bits()).unwrap());
    let mut plain = detector();
    let floats: Vec<f32> = (0..64).map(|i| if i % 2 == 0 { 0.8 } else { -0.8 }).collect();
    let bits: Vec<u32> = floats.iter().map(|x| x.to_bits()).collect();
    let scaled: Vec<u32> = floats.iter().map(|x| (x * gain).to_bits()).collect();
    for (a, b) in bits.chunks(4).zip(scaled.chunks(4)) {
        assert_eq!(
            raised.run_float_array_detection(a, 4, false),
            plain.run_float_array_detection(b, 4, false)
        );
    }
    assert_eq!(raised.run_short_array_detection(&PATTERN, 4, false), 0);
}

#[test]
fn every_segment_is_reported_once_however_it_is_chunked() {
    let mut audio: Vec<i16> = Vec::new();
    for _ in 0..3 {
        for _ in 0..6 {
            audio.extend_from_slice(&PATTERN);
        }
        for _ in 0..6 {
            audio.extend_from_slice(&QUIET);
        }
    }
    for size in [1, 2, 3, 4, 5, 7, 8, 12, 16, 48] {
        let mut d = detector();
        let mut reports = 0;
        for piece in audio.chunks(size) {
            let code = d.run_short_array_detection(piece, piece.len() as i32, false);
            assert_ne!(code, 1);
            assert_ne!(code, -1);
            if code == 2 {
                reports += 1;
            }
        }
        assert_eq!(reports, 3, "chunks of {}", size);
    }
}

#[test]
fn silence_is_silence_under_every_gain_and_frontend() {
    for gain in [0.0f32, 0.1, 1.0, 1000.0, f32::MAX] {
        for frontend in [false, true] {
            let mut d = detector();
            d.set_audio_gain(Gain::from_f32_bits(gain.to_bits()).unwrap());
            d.apply_frontend(frontend);
            for size in [1usize, 3, 4, 9] {
                assert_eq!(d.run_short_array_detection(&vec![0; size], size as i32, size == 9), -2);
                assert_eq!(d.run_char_detection(&vec![128; size], false), -2);
                assert_eq!(d.run_integer_array_detection(&vec![0; size], size as i32, false), -2);
                assert_eq!(
                    d.run_float_array_detection(&vec![(-0.0f32).to_bits(); size], size as i32, false),
                    -2
                );
            }
        }
    }
}

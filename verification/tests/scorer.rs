use rsnowboy::error::{merge_codes, CODE_ERROR, CODE_NO_EVENT, CODE_SILENCE};
use rsnowboy::scorer::{activation, ScorerState};
use rsnowboy::vad::{result_code, VadState};
use rsnowboy::{Detection, EngineError, HotwordParams, Resource, SampleFormat};

fn params(weights: Vec<i32>, bias: i32, min_amplitude: i32) -> HotwordParams {
    HotwordParams { weights, bias, min_amplitude, sensitivity: "0.5".to_string() }
}

fn resource(vad_level: i32, vad_hangover: u32) -> Resource {
    Resource {
        format: SampleFormat { sample_rate: 16000, num_channels: 1, bits_per_sample: 16 },
        frame_len: 4,
        hop: 2,
        feature_dim: 2,
        vad_level,
        vad_hangover,
    }
}

#[test]
fn the_activation_is_the_weighted_sum_plus_bias() {
    assert_eq!(activation(&params(vec![3, 5], 7, 0), &vec![10, 100], 0), 537);
    assert_eq!(activation(&params(vec![0, 0], 42, 0), &vec![10, 100], 0), 42);
    assert_eq!(activation(&params(vec![], 42, 0), &vec![], 0), 42);
}

#[test]
fn the_activation_is_limited_to_the_score_range() {
    assert_eq!(activation(&params(vec![0, 100], 0, 0), &vec![10000, 15000], 0), 1_000_000);
    assert_eq!(activation(&params(vec![1, -1], 10, 0), &vec![5, 20], 0), 0);
    assert_eq!(activation(&params(vec![i32::MAX, i32::MAX], i32::MAX, 0), &vec![65535, 65535], 0), 1_000_000);
    assert_eq!(activation(&params(vec![i32::MIN, i32::MIN], i32::MIN, 0), &vec![65535, 65535], 0), 0);
    assert_eq!(activation(&params(vec![10, 0], 0, 0), &vec![100_000 / 10, 0], 0), 100_000);
}

#[test]
fn a_frame_below_the_least_amplitude_activates_nothing() {
    let hotword = params(vec![0, 100], 5, 500);
    assert_eq!(activation(&hotword, &vec![10, 20], 499), 0);
    assert_eq!(activation(&hotword, &vec![10, 20], 500), 2005);
    assert_eq!(activation(&hotword, &vec![10, 20], 32768), 2005);
}

#[test]
fn the_score_moves_a_quarter_of_the_way() {
    let start = ScorerState::initial();
    assert_eq!(start, ScorerState { score: 0, latched: false });
    let (first, fired) = start.next(1_000_000, 500_000);
    assert_eq!(first, ScorerState { score: 250_000, latched: false });
    assert!(!fired);
    let (second, fired) = first.next(1_000_000, 500_000);
    assert_eq!(second, ScorerState { score: 437_500, latched: false });
    assert!(!fired);
    let (third, fired) = second.next(1_000_000, 500_000);
    assert_eq!(third, ScorerState { score: 578_125, latched: true });
    assert!(fired);
}

#[test]
fn a_hotword_fires_once_per_stretch_of_high_score() {
    let high = ScorerState { score: 578_125, latched: true };
    let (next, fired) = high.next(1_000_000, 500_000);
    assert_eq!(next, ScorerState { score: 683_593, latched: true });
    assert!(!fired);
    let (fallen, fired) = next.next(0, 500_000);
    assert_eq!(fallen, ScorerState { score: 512_694, latched: true });
    assert!(!fired);
    let (low, fired) = fallen.next(0, 500_000);
    assert_eq!(low, ScorerState { score: 384_520, latched: false });
    assert!(!fired);
    let (again, fired) = low.next(1_000_000, 500_000);
    assert_eq!(again, ScorerState { score: 538_390, latched: true });
    assert!(fired);
}

#[test]
fn the_threshold_must_be_exceeded() {
    let state = ScorerState { score: 400_000, latched: false };
    assert_eq!(state.next(400_000, 400_000), (ScorerState { score: 400_000, latched: false }, false));
    assert_eq!(state.next(400_004, 400_000), (ScorerState { score: 400_001, latched: true }, true));
    let zero = ScorerState::initial();
    assert_eq!(zero.next(0, 0), (ScorerState { score: 0, latched: false }, false));
    assert_eq!(zero.next(4, 0), (ScorerState { score: 1, latched: true }, true));
    let full = ScorerState { score: 1_000_000, latched: false };
    assert_eq!(full.next(1_000_000, 1_000_000), (ScorerState { score: 1_000_000, latched: false }, false));
}

#[test]
fn speech_starts_at_the_speech_level() {
    let r = resource(1000, 0);
    let start = VadState::initial();
    assert_eq!(start, VadState { in_speech: false, silence_run: 0 });
    assert_eq!(start.next(1000, &r), VadState { in_speech: true, silence_run: 0 });
    assert_eq!(start.next(999, &r), VadState { in_speech: false, silence_run: 1 });
    assert_eq!(start.next(0, &r), VadState { in_speech: false, silence_run: 1 });
}

#[test]
fn speech_hangs_over_short_pauses() {
    let r = resource(1000, 2);
    let speech = VadState::initial().next(5000, &r);
    let one = speech.next(0, &r);
    assert_eq!(one, VadState { in_speech: true, silence_run: 1 });
    let two = one.next(999, &r);
    assert_eq!(two, VadState { in_speech: true, silence_run: 2 });
    let three = two.next(0, &r);
    assert_eq!(three, VadState { in_speech: false, silence_run: 3 });
    assert_eq!(three.next(0, &r), VadState { in_speech: false, silence_run: 4 });
    assert_eq!(two.next(1000, &r), VadState { in_speech: true, silence_run: 0 });
}

#[test]
fn the_silence_counter_stops_at_its_limit() {
    let r = resource(1000, 0);
    let long = VadState { in_speech: false, silence_run: u32::MAX };
    assert_eq!(long.next(0, &r), VadState { in_speech: false, silence_run: u32::MAX });
    let r = resource(1000, u32::MAX);
    let kept = VadState { in_speech: true, silence_run: u32::MAX };
    assert_eq!(kept.next(0, &r), VadState { in_speech: true, silence_run: u32::MAX });
}

#[test]
fn codes_merge_to_the_lowest_hotword() {
    assert_eq!(merge_codes(-2, -2), -2);
    assert_eq!(merge_codes(-2, 0), 0);
    assert_eq!(merge_codes(0, -2), 0);
    assert_eq!(merge_codes(0, 0), 0);
    assert_eq!(merge_codes(0, 3), 3);
    assert_eq!(merge_codes(3, -2), 3);
    assert_eq!(merge_codes(3, 2), 2);
    assert_eq!(merge_codes(2, 3), 2);
    assert_eq!(merge_codes(1, 1), 1);
}

#[test]
fn detections_have_codes() {
    assert_eq!(Detection::Silence.code(), -2);
    assert_eq!(Detection::NonSilence.code(), 0);
    assert_eq!(Detection::Hotword(7).code(), 7);
    assert_eq!(Detection::from_code(-2), Some(Detection::Silence));
    assert_eq!(Detection::from_code(0), Some(Detection::NonSilence));
    assert_eq!(Detection::from_code(1), Some(Detection::Hotword(1)));
    assert_eq!(Detection::from_code(i32::MAX), Some(Detection::Hotword(i32::MAX)));
    assert_eq!(Detection::from_code(-1), None);
    assert_eq!(Detection::from_code(-3), None);
    assert_eq!(CODE_SILENCE, -2);
    assert_eq!(CODE_ERROR, -1);
    assert_eq!(CODE_NO_EVENT, 0);
}

#[test]
fn every_error_is_reported_as_minus_one() {
    assert_eq!(result_code(Ok(Detection::Silence)), -2);
    assert_eq!(result_code(Ok(Detection::NonSilence)), 0);
    assert_eq!(result_code(Ok(Detection::Hotword(2))), 2);
    assert_eq!(result_code(Err(EngineError::DetectionFault)), -1);
    assert_eq!(result_code(Err(EngineError::FormatMismatch)), -1);
}

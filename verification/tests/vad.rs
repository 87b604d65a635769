use rsnowboy::{AudioChunk, Detection, EngineError, Gain, Resource, SampleFormat, Samples, SnowboyVad};

fn resource(channels: i32, vad_level: i32, vad_hangover: u32) -> Resource {
    Resource {
        format: SampleFormat { sample_rate: 16000, num_channels: channels, bits_per_sample: 16 },
        frame_len: 4,
        hop: 2,
        feature_dim: 2,
        vad_level,
        vad_hangover,
    }
}

fn vad(vad_level: i32, vad_hangover: u32) -> SnowboyVad {
    SnowboyVad::new(resource(1, vad_level, vad_hangover)).unwrap()
}

#[test]
fn vad_reports_the_format_of_its_resource() {
    let v = SnowboyVad::new(Resource {
        format: SampleFormat { sample_rate: 8000, num_channels: 2, bits_per_sample: 8 },
        ..resource(1, 1000, 0)
    })
    .unwrap();
    assert_eq!(v.sample_rate(), 8000);
    assert_eq!(v.num_channels(), 2);
    assert_eq!(v.bits_per_sample(), 8);
}

#[test]
fn vad_refuses_an_unusable_resource() {
    let bad = [
        Resource { hop: 0, ..resource(1, 1000, 0) },
        Resource { hop: 5, ..resource(1, 1000, 0) },
        Resource { frame_len: 65537, ..resource(1, 1000, 0) },
        Resource { feature_dim: 0, ..resource(1, 1000, 0) },
        Resource { feature_dim: 5, ..resource(1, 1000, 0) },
        Resource { vad_level: -1, ..resource(1, 1000, 0) },
        Resource { vad_level: 0, ..resource(1, 1000, 0) },
        Resource { vad_level: 32769, ..resource(1, 1000, 0) },
        resource(0, 1000, 0),
        Resource {
            format: SampleFormat { sample_rate: 0, num_channels: 1, bits_per_sample: 16 },
            ..resource(1, 1000, 0)
        },
        Resource {
            format: SampleFormat { sample_rate: 16000, num_channels: 1, bits_per_sample: 24 },
            ..resource(1, 1000, 0)
        },
    ];
    for r in bad {
        assert_eq!(SnowboyVad::new(r).err(), Some(EngineError::ResourceLoadError), "{:?}", r);
    }
}

#[test]
fn vad_hears_silence_in_silence() {
    let mut v = vad(1000, 1);
    for _ in 0..5 {
        assert_eq!(v.run_short_array(&[0; 8], 8, false), -2);
    }
}

#[test]
fn vad_hears_speech_at_the_speech_level() {
    let mut v = vad(1000, 0);
    assert_eq!(v.run_short_array(&[999; 4], 4, false), -2);
    let mut v = vad(1000, 0);
    assert_eq!(v.run_short_array(&[1000; 4], 4, false), 0);
    let mut v = vad(1000, 0);
    assert_eq!(v.run_short_array(&[-1000; 4], 4, false), 0);
}

#[test]
fn vad_needs_a_whole_frame() {
    let mut v = vad(1000, 0);
    assert_eq!(v.run_short_array(&[2000; 3], 3, false), -2);
    assert_eq!(v.run_short_array(&[2000; 1], 1, false), 0);
    assert_eq!(v.run_short_array(&[2000; 1], 1, false), -2);
    assert_eq!(v.run_short_array(&[2000; 1], 1, false), 0);
}

#[test]
fn vad_hangs_over_after_speech() {
    let mut v = vad(1000, 1);
    assert_eq!(v.run_short_array(&[2000; 4], 4, false), 0);
    assert_eq!(v.run_short_array(&[0; 2], 2, false), 0);
    assert_eq!(v.run_short_array(&[0; 2], 2, false), 0);
    assert_eq!(v.run_short_array(&[0; 2], 2, false), -2);
    assert_eq!(v.run_short_array(&[0; 2], 2, false), -2);
}

#[test]
fn vad_takes_the_first_samples_only() {
    let mut v = vad(1000, 0);
    assert_eq!(v.run_short_array(&[0, 0, 0, 0, 9000, 9000, 9000, 9000], 4, false), -2);
    let mut v = vad(1000, 0);
    assert_eq!(v.run_short_array(&[0, 0, 0, 0, 9000, 9000, 9000, 9000], 8, false), 0);
    let mut v = vad(1000, 0);
    assert_eq!(v.run_short_array(&[9000; 8], 0, false), -2);
}

#[test]
fn vad_refuses_a_length_beyond_the_data() {
    let mut v = vad(1000, 0);
    assert_eq!(v.run_short_array(&[9000; 4], 5, false), -1);
    assert_eq!(v.run_short_array(&[9000; 4], -1, false), -1);
    assert_eq!(v.run_integer_array(&[0; 4], 5, false), -1);
    assert_eq!(v.run_float_array(&[0; 4], 5, false), -1);
    assert_eq!(v.run_short_array(&[9000; 4], 4, false), 0);
}

#[test]
fn vad_is_left_as_it_was_by_a_refused_chunk() {
    let mut v = vad(1000, 0);
    assert_eq!(v.run_short_array(&[9000; 3], 3, false), -2);
    assert_eq!(v.run_float_array(&[f32::NAN.to_bits(); 4], 4, false), -1);
    assert_eq!(v.run_short_array(&[9000; 1], 1, false), 0);
}

#[test]
fn vad_reads_every_encoding() {
    let mut v = vad(1000, 0);
    assert_eq!(v.run_char(&[128; 4]), -2);
    let mut v = vad(1000, 0);
    assert_eq!(v.run_char(&[132; 4]), 0);
    let mut v = vad(1000, 0);
    assert_eq!(v.run_char(&[131; 4]), -2);
    let mut v = vad(1000, 0);
    assert_eq!(v.run_char(&[124; 4]), 0);
    let mut v = vad(1000, 0);
    assert_eq!(v.run_integer_array(&[999 << 16; 4], 4, false), -2);
    assert_eq!(v.run_integer_array(&[1001 << 16; 2], 2, false), 0);
    let mut v = vad(16384, 0);
    assert_eq!(v.run_float_array(&[0.4999f32.to_bits(); 4], 4, false), -2);
    assert_eq!(v.run_float_array(&[0.5001f32.to_bits(); 4], 4, false), 0);
}

#[test]
fn vad_flushes_at_the_end_of_an_utterance() {
    let mut v = vad(1000, 0);
    assert_eq!(v.run_short_array(&[4000; 2], 2, false), -2);
    let mut v = vad(1000, 0);
    assert_eq!(v.run_short_array(&[4000; 2], 2, true), 0);
    assert_eq!(v.run_short_array(&[4000; 3], 3, false), -2);
    let mut v = vad(1000, 0);
    assert_eq!(v.run_short_array(&[4000; 1], 1, true), 0);
    let mut v = vad(1001, 0);
    assert_eq!(v.run_short_array(&[4000; 1], 1, true), -2);
    let mut v = vad(1000, 0);
    assert_eq!(v.run_short_array(&[], 0, true), -2);
}

#[test]
fn vad_run_reports_detections() {
    let mut v = vad(1000, 0);
    let loud = [5000i16; 4];
    let quiet = [0i16; 4];
    let chunk = AudioChunk { samples: Samples::Signed16(&loud), channels: 1, is_end: false };
    assert_eq!(v.run(&chunk), Ok(Detection::NonSilence));
    let chunk = AudioChunk { samples: Samples::Signed16(&quiet), channels: 1, is_end: false };
    assert_eq!(v.run(&chunk), Ok(Detection::NonSilence));
    assert_eq!(v.run(&chunk), Ok(Detection::Silence));
}

#[test]
fn vad_refuses_another_channel_count() {
    let mut v = vad(1000, 0);
    let data = [5000i16; 4];
    let chunk = AudioChunk { samples: Samples::Signed16(&data), channels: 2, is_end: false };
    assert_eq!(v.run(&chunk), Err(EngineError::FormatMismatch));
    let chunk = AudioChunk { samples: Samples::Signed16(&data), channels: 0, is_end: false };
    assert_eq!(v.run(&chunk), Err(EngineError::FormatMismatch));
}

#[test]
fn vad_refuses_half_a_sample_group() {
    let mut v = SnowboyVad::new(resource(2, 1000, 0)).unwrap();
    let data = [5000i16; 3];
    let chunk = AudioChunk { samples: Samples::Signed16(&data), channels: 2, is_end: false };
    assert_eq!(v.run(&chunk), Err(EngineError::DetectionFault));
    assert_eq!(v.run_short_array(&data, 3, false), -1);
    assert_eq!(v.run_short_array(&data, 2, false), -2);
}

#[test]
fn vad_refuses_a_float_that_is_no_number() {
    let mut v = vad(1000, 0);
    let data = [0.5f32.to_bits(), f32::INFINITY.to_bits()];
    let chunk = AudioChunk { samples: Samples::Float32(&data), channels: 1, is_end: false };
    assert_eq!(v.run(&chunk), Err(EngineError::DetectionFault));
}

#[test]
fn vad_mixes_stereo_down() {
    let mut v = SnowboyVad::new(resource(2, 1000, 0)).unwrap();
    assert_eq!(v.run_short_array(&[2000, 0, 2000, 0, 2000, 0, 2000, 0], 8, false), 0);
    let mut v = SnowboyVad::new(resource(2, 1001, 0)).unwrap();
    assert_eq!(v.run_short_array(&[2000, 0, 2000, 0, 2000, 0, 2000, 0], 8, false), -2);
    let mut v = SnowboyVad::new(resource(2, 1000, 0)).unwrap();
    assert_eq!(v.run_short_array(&[2000, -2000, 2000, -2000, 2000, -2000, 2000, -2000], 8, false), -2);
}

#[test]
fn vad_applies_the_audio_gain() {
    let mut v = vad(1000, 0);
    assert_eq!(v.run_short_array(&[500; 4], 4, false), -2);
    v.set_audio_gain(Gain::from_f32_bits(2.0f32.to_bits()).unwrap());
    assert_eq!(v.run_short_array(&[500; 2], 2, false), -2);
    assert_eq!(v.run_short_array(&[500; 2], 2, false), 0);
    v.set_audio_gain(Gain::from_f32_bits(0.0f32.to_bits()).unwrap());
    assert_eq!(v.run_short_array(&[32767; 4], 4, false), -2);
}

#[test]
fn vad_frontend_changes_the_verdict_and_not_the_format() {
    let mut plain = vad(2100, 0);
    let mut conditioned = vad(2100, 0);
    conditioned.apply_frontend(true);
    assert_eq!(conditioned.sample_rate(), plain.sample_rate());
    assert_eq!(conditioned.num_channels(), plain.num_channels());
    assert_eq!(conditioned.bits_per_sample(), plain.bits_per_sample());
    assert_eq!(plain.run_short_array(&[2000; 4], 4, false), -2);
    assert_eq!(conditioned.run_short_array(&[2000; 4], 4, false), 0);
    conditioned.apply_frontend(false);
    assert_eq!(conditioned.sample_rate(), 16000);
    assert_eq!(conditioned.num_channels(), 1);
    assert_eq!(conditioned.bits_per_sample(), 16);
    assert_eq!(conditioned.run_short_array(&[2000; 2], 2, false), -2);
}

#[test]
fn vad_reset_starts_anew() {
    let mut v = vad(1000, 5);
    assert_eq!(v.run_short_array(&[2000; 3], 3, false), -2);
    assert!(v.reset());
    assert_eq!(v.run_short_array(&[2000; 1], 1, false), -2);
    assert_eq!(v.run_short_array(&[2000; 3], 3, false), 0);
    assert_eq!(v.run_short_array(&[0; 2], 2, false), 0);
    assert!(v.reset());
    assert!(v.reset());
    assert_eq!(v.run_short_array(&[0; 4], 4, false), -2);
}

#[test]
fn vad_reset_keeps_gain_and_frontend() {
    let mut v = vad(1000, 0);
    v.set_audio_gain(Gain::from_f32_bits(2.0f32.to_bits()).unwrap());
    assert!(v.reset());
    assert_eq!(v.run_short_array(&[500; 4], 4, false), 0);
}

#[test]
fn vad_can_be_given_up() {
    let v = vad(1000, 0);
    v.destroy();
}

#[test]
fn vad_gain_and_scaled_audio_are_heard_alike() {
    let one_sample = Resource { frame_len: 1, hop: 1, feature_dim: 1, ..resource(1, 1, 0) };
    let mut raised = SnowboyVad::new(one_sample).unwrap();
    raised.set_audio_gain(Gain::from_f32_bits(2.0f32.to_bits()).unwrap());
    let mut plain = SnowboyVad::new(one_sample).unwrap();
    let weak = [(1.0f32 / 65536.0).to_bits()];
    let twice = [(1.0f32 / 32768.0).to_bits()];
    assert_eq!(raised.run_float_array(&weak, 1, false), 0);
    assert_eq!(plain.run_float_array(&twice, 1, false), 0);
    assert_eq!(plain.run_float_array(&weak, 1, false), -2);
    raised.set_audio_gain(Gain::from_f32_bits(100.0f32.to_bits()).unwrap());
    assert_eq!(raised.run_integer_array(&[1000], 1, false), 0);
    assert_eq!(plain.run_integer_array(&[100_000], 1, false), 0);
    assert_eq!(plain.run_integer_array(&[1000], 1, false), -2);
}

#[test]
fn vad_never_hears_speech_in_zeros() {
    let mut v = SnowboyVad::new(Resource { frame_len: 1, hop: 1, feature_dim: 1, ..resource(1, 1, 0) }).unwrap();
    for _ in 0..10 {
        assert_eq!(v.run_short_array(&[0; 5], 5, false), -2);
    }
    assert_eq!(v.run_short_array(&[1], 1, false), 0);
    assert_eq!(v.run_short_array(&[0], 1, false), -2);
}

use rsnowboy::codec::{encode_model, encode_resource};
use rsnowboy::{EngineError, HotwordModel, HotwordParams, Resource, SampleFormat, SnowboyDetect, SnowboyVad};

const PATTERN: [i16; 4] = [10000, -10000, 10000, -10000];

fn resource() -> Resource {
    Resource {
        format: SampleFormat { sample_rate: 16000, num_channels: 1, bits_per_sample: 16 },
        frame_len: 4,
        hop: 4,
        feature_dim: 2,
        vad_level: 1000,
        vad_hangover: 0,
    }
}

fn hotword(weights: Vec<i32>, sensitivity: &str) -> HotwordParams {
    HotwordParams { weights, bias: 0, min_amplitude: 0, sensitivity: sensitivity.to_string() }
}

fn a_file() -> Vec<u8> {
    encode_model(&HotwordModel { hotwords: vec![hotword(vec![0, 0], "0.5")] }).unwrap()
}

fn b_file() -> Vec<u8> {
    encode_model(&HotwordModel { hotwords: vec![hotword(vec![0, 100], "0.5")] }).unwrap()
}

fn unfit_file() -> Vec<u8> {
    encode_model(&HotwordModel { hotwords: vec![hotword(vec![1, 2, 3], "0.5")] }).unwrap()
}

fn resource_file() -> Vec<u8> {
    encode_resource(&resource()).unwrap()
}

#[test]
fn a_detector_is_built_from_its_files() {
    let mut d = SnowboyDetect::load(&resource_file(), &vec![a_file(), b_file()]).unwrap();
    assert_eq!(d.num_hotwords(), 2);
    assert_eq!(d.sample_rate(), 16000);
    assert_eq!(d.get_sensitivity(), "0.5,0.5");
    for expected in [0, 0, 2, 0] {
        assert_eq!(d.run_short_array_detection(&PATTERN, 4, false), expected);
    }
}

#[test]
fn a_resource_file_that_cannot_be_read_is_a_resource_load_error() {
    assert_eq!(SnowboyDetect::load(&[], &vec![a_file()]).err(), Some(EngineError::ResourceLoadError));
    assert_eq!(SnowboyDetect::load(&a_file(), &vec![a_file()]).err(), Some(EngineError::ResourceLoadError));
    let mut cut = resource_file();
    cut.pop();
    assert_eq!(SnowboyDetect::load(&cut, &vec![a_file()]).err(), Some(EngineError::ResourceLoadError));
    assert_eq!(SnowboyDetect::load(&cut, &vec![vec![1, 2, 3]]).err(), Some(EngineError::ResourceLoadError));
    assert_eq!(SnowboyVad::load(&cut).err(), Some(EngineError::ResourceLoadError));
    assert_eq!(SnowboyVad::load(&[]).err(), Some(EngineError::ResourceLoadError));
}

#[test]
fn a_resource_file_with_an_unusable_resource_is_a_resource_load_error() {
    let unusable = encode_resource(&Resource { hop: 9, ..resource() }).unwrap();
    assert_eq!(SnowboyDetect::load(&unusable, &vec![a_file()]).err(), Some(EngineError::ResourceLoadError));
    assert_eq!(SnowboyVad::load(&unusable).err(), Some(EngineError::ResourceLoadError));
}

#[test]
fn the_first_failing_model_file_is_reported() {
    let junk = vec![1u8, 2, 3];
    let cases: Vec<(Vec<Vec<u8>>, usize)> = vec![
        (vec![], 0),
        (vec![junk.clone()], 0),
        (vec![a_file(), junk.clone()], 1),
        (vec![a_file(), b_file(), junk.clone(), junk.clone()], 2),
        (vec![unfit_file(), junk.clone()], 0),
        (vec![a_file(), unfit_file(), junk.clone()], 1),
        (vec![a_file(), junk.clone(), unfit_file()], 1),
        (vec![a_file(), b_file(), resource_file()], 2),
    ];
    for (files, position) in cases {
        assert_eq!(
            SnowboyDetect::load(&resource_file(), &files).err(),
            Some(EngineError::ModelLoadError(position))
        );
    }
}

#[test]
fn models_that_were_written_back_load_with_the_new_sensitivities() {
    let mut d = SnowboyDetect::load(&resource_file(), &vec![a_file(), b_file()]).unwrap();
    assert_eq!(d.set_sensitivity("0.25,0.9"), Ok(()));
    let files: Vec<Vec<u8>> = d.update_model().iter().map(|m| encode_model(m).unwrap()).collect();
    assert_eq!(d.confirm_update(&[true, true]), Ok(()));
    let mut again = SnowboyDetect::load(&resource_file(), &files).unwrap();
    assert_eq!(again.get_sensitivity(), "0.25,0.9");
    assert_eq!(again.run_short_array_detection(&PATTERN, 4, false), 2);
}

#[test]
fn a_vad_is_built_from_its_resource_file() {
    let mut v = SnowboyVad::load(&resource_file()).unwrap();
    assert_eq!(v.sample_rate(), 16000);
    assert_eq!(v.num_channels(), 1);
    assert_eq!(v.bits_per_sample(), 16);
    assert_eq!(v.run_short_array(&PATTERN, 4, false), 0);
    assert_eq!(v.run_short_array(&[0; 4], 4, false), -2);
}

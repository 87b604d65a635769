use rsnowboy::codec::{decode_model, decode_resource, encode_model, encode_resource, get_i32, get_u32, put_i32, put_u32};
use rsnowboy::{HotwordModel, HotwordParams, Resource, SampleFormat};

fn resource() -> Resource {
    Resource {
        format: SampleFormat { sample_rate: 16000, num_channels: 1, bits_per_sample: 16 },
        frame_len: 400,
        hop: 160,
        feature_dim: 13,
        vad_level: 300,
        vad_hangover: 5,
    }
}

fn resource_bytes() -> Vec<u8> {
    vec![
        b'S', b'B', b'R', b'S', 0x80, 0x3e, 0, 0, 1, 0, 0, 0, 16, 0, 0, 0, 0x90, 0x01, 0, 0, 0xa0, 0, 0, 0,
        13, 0, 0, 0, 0x2c, 0x01, 0, 0, 5, 0, 0, 0,
    ]
}

fn model() -> HotwordModel {
    HotwordModel {
        hotwords: vec![
            HotwordParams { weights: vec![5, -6], bias: -3, min_amplitude: 4, sensitivity: "0.5".to_string() },
            HotwordParams { weights: vec![], bias: 0, min_amplitude: i32::MIN, sensitivity: "1".to_string() },
        ],
    }
}

fn model_bytes() -> Vec<u8> {
    vec![
        b'S', b'B', b'M', b'D', 2, 0, 0, 0, // two hotwords
        2, 0, 0, 0, 0xfd, 0xff, 0xff, 0xff, 4, 0, 0, 0, // two weights, bias, least amplitude
        5, 0, 0, 0, 0xfa, 0xff, 0xff, 0xff, // weights
        3, 0, 0, 0, b'0', b'.', b'5', // sensitivity
        0, 0, 0, 0, 0, 0, 0, 0, 0, 0, 0, 0x80, // no weights, bias, least amplitude
        1, 0, 0, 0, b'1', // sensitivity
    ]
}

fn same(a: &HotwordModel, b: &HotwordModel) -> bool {
    a.hotwords.len() == b.hotwords.len()
        && a.hotwords.iter().zip(b.hotwords.iter()).all(|(x, y)| {
            x.weights == y.weights
                && x.bias == y.bias
                && x.min_amplitude == y.min_amplitude
                && x.sensitivity == y.sensitivity
        })
}

#[test]
fn numbers_are_stored_least_significant_byte_first() {
    let mut out = vec![9u8];
    put_u32(&mut out, 0x0403_0201);
    put_u32(&mut out, 0);
    put_u32(&mut out, u32::MAX);
    assert_eq!(out, vec![9, 1, 2, 3, 4, 0, 0, 0, 0, 255, 255, 255, 255]);
    assert_eq!(get_u32(&out, 1), 0x0403_0201);
    assert_eq!(get_u32(&out, 5), 0);
    assert_eq!(get_u32(&out, 9), u32::MAX);
    assert_eq!(get_u32(&out, 2), 0x0004_0302);
}

#[test]
fn signed_numbers_are_stored_in_twos_complement() {
    let mut out = Vec::new();
    put_i32(&mut out, -1);
    put_i32(&mut out, i32::MIN);
    put_i32(&mut out, i32::MAX);
    put_i32(&mut out, -256);
    assert_eq!(out, vec![255, 255, 255, 255, 0, 0, 0, 0x80, 255, 255, 255, 0x7f, 0, 255, 255, 255]);
    assert_eq!(get_i32(&out, 0), -1);
    assert_eq!(get_i32(&out, 4), i32::MIN);
    assert_eq!(get_i32(&out, 8), i32::MAX);
    assert_eq!(get_i32(&out, 12), -256);
    for x in [0, 1, -1, 7, -7, 65536, -65536, i32::MAX, i32::MIN] {
        let mut bytes = Vec::new();
        put_i32(&mut bytes, x);
        assert_eq!(bytes, x.to_le_bytes().to_vec());
        assert_eq!(get_i32(&bytes, 0), x);
    }
}

#[test]
fn a_resource_is_written_as_its_mark_and_eight_numbers() {
    assert_eq!(encode_resource(&resource()), Some(resource_bytes()));
}

#[test]
fn a_resource_is_read_back_as_written() {
    assert_eq!(decode_resource(&resource_bytes()), Some(resource()));
    let odd = Resource {
        format: SampleFormat { sample_rate: -1, num_channels: i32::MIN, bits_per_sample: i32::MAX },
        frame_len: 0,
        hop: u32::MAX as usize,
        feature_dim: 7,
        vad_level: -32768,
        vad_hangover: u32::MAX,
    };
    assert_eq!(decode_resource(&encode_resource(&odd).unwrap()), Some(odd));
}

#[test]
fn what_is_no_resource_file_is_refused() {
    assert_eq!(decode_resource(&[]), None);
    assert_eq!(decode_resource(b"SBRS"), None);
    let mut long = resource_bytes();
    long.push(0);
    assert_eq!(decode_resource(&long), None);
    let mut short = resource_bytes();
    short.pop();
    assert_eq!(decode_resource(&short), None);
    for at in 0..4 {
        let mut marked = resource_bytes();
        marked[at] ^= 0x20;
        assert_eq!(decode_resource(&marked), None);
    }
    let mut model_marked = resource_bytes();
    model_marked[2] = b'M';
    model_marked[3] = b'D';
    assert_eq!(decode_resource(&model_marked), None);
}

#[test]
fn a_model_is_written_hotword_by_hotword() {
    assert_eq!(encode_model(&model()), Some(model_bytes()));
    assert_eq!(encode_model(&HotwordModel { hotwords: vec![] }), Some(vec![b'S', b'B', b'M', b'D', 0, 0, 0, 0]));
}

#[test]
fn a_model_is_read_back_as_written() {
    let read = decode_model(&model_bytes()).unwrap();
    assert!(same(&read, &model()));
    let empty = decode_model(&[b'S', b'B', b'M', b'D', 0, 0, 0, 0]).unwrap();
    assert!(empty.hotwords.is_empty());
    let big = HotwordModel {
        hotwords: (0..20)
            .map(|k| HotwordParams {
                weights: (0..k).map(|j| j * 1000 - 7000 * k).collect(),
                bias: -k * 99_999,
                min_amplitude: k,
                sensitivity: format!("0.{}", k),
            })
            .collect(),
    };
    let read = decode_model(&encode_model(&big).unwrap()).unwrap();
    assert!(same(&read, &big));
}

#[test]
fn a_model_with_a_malformed_sensitivity_is_not_written() {
    for text in ["", "high", "1.5", "0,5", "0.5 ", "é"] {
        let bad = HotwordModel {
            hotwords: vec![
                HotwordParams { weights: vec![1], bias: 0, min_amplitude: 0, sensitivity: "0.5".to_string() },
                HotwordParams { weights: vec![1], bias: 0, min_amplitude: 0, sensitivity: text.to_string() },
            ],
        };
        assert_eq!(encode_model(&bad), None, "{:?}", text);
    }
}

#[test]
fn what_is_no_model_file_is_refused() {
    assert!(decode_model(&[]).is_none());
    assert!(decode_model(b"SBMD").is_none());
    assert!(decode_model(b"SBMD\x00\x00\x00").is_none());
    assert!(decode_model(&resource_bytes()).is_none());
    let mut long = model_bytes();
    long.push(0);
    assert!(decode_model(&long).is_none());
    for cut in 0..model_bytes().len() {
        assert!(decode_model(&model_bytes()[..cut]).is_none(), "cut at {}", cut);
    }
    for at in 0..4 {
        let mut marked = model_bytes();
        marked[at] ^= 0x20;
        assert!(decode_model(&marked).is_none());
    }
}

#[test]
fn a_model_file_with_wrong_counts_is_refused() {
    let mut more = model_bytes();
    more[4] = 3;
    assert!(decode_model(&more).is_none());
    let mut fewer = model_bytes();
    fewer[4] = 1;
    assert!(decode_model(&fewer).is_none());
    let mut many = model_bytes();
    many[4..8].copy_from_slice(&[255, 255, 255, 255]);
    assert!(decode_model(&many).is_none());
    let mut wide = model_bytes();
    wide[8..12].copy_from_slice(&[255, 255, 255, 255]);
    assert!(decode_model(&wide).is_none());
    let mut wordy = model_bytes();
    wordy[28..32].copy_from_slice(&[255, 255, 255, 255]);
    assert!(decode_model(&wordy).is_none());
}

#[test]
fn a_model_file_with_a_malformed_sensitivity_is_refused() {
    for text in [*b"0,5", *b"1.5", *b"0.x", *b".50", *b"0.\xff", *b"\x000."] {
        let mut bad = model_bytes();
        bad[32..35].copy_from_slice(&text);
        assert!(decode_model(&bad).is_none(), "{:?}", text);
    }
    let mut fine = model_bytes();
    fine[32..35].copy_from_slice(b"1.0");
    assert_eq!(decode_model(&fine).unwrap().hotwords[0].sensitivity, "1.0");
}

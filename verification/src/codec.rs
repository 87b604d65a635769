//! The storage format of resources and hotword models.
//!
//! Numbers are stored as four bytes, least significant first; signed numbers
//! in two's complement. A resource file is the mark `SBRS` followed by its
//! eight numbers. A model file is the mark `SBMD`, the number of hotwords,
//! and the hotwords one after the other: the number of weights, the bias,
//! the least amplitude, the weights, the length of the sensitivity and the
//! sensitivity as text.

use vstd::prelude::*;
use vstd::string::StringExecFns;
use crate::model::{HotwordModel, HotwordParams, HotwordParamsView};
use crate::resource::{Resource, SampleFormat};
use crate::sensitivity::{is_digit, is_sensitivity, parse_sensitivity};
use crate::text::chars_of;

verus! {

/// A number as its four bytes, least significant first.
#[verifier::opaque]
pub open spec fn spec_u32_bytes(x: u32) -> Seq<u8> {
    seq![
        (x % 256) as u8,
        ((x / 256) % 256) as u8,
        ((x / 65536) % 256) as u8,
        (x / 16777216) as u8,
    ]
}

/// The number that the four bytes from `at` on stand for.
#[verifier::opaque]
pub open spec fn spec_u32_at(data: Seq<u8>, at: int) -> u32 {
    (data[at] + 256 * data[at + 1] + 65536 * data[at + 2] + 16777216 * data[at + 3]) as u32
}

/// A signed number as the unsigned number with the same bits.
pub open spec fn spec_i32_word(x: i32) -> u32 {
    if x >= 0 {
        x as u32
    } else {
        (x + 0x1_0000_0000) as u32
    }
}

/// An unsigned number as the signed number with the same bits.
pub open spec fn spec_word_i32(w: u32) -> i32 {
    if w < 0x8000_0000 {
        w as i32
    } else {
        (w - 0x1_0000_0000) as i32
    }
}

/// The signed number that the four bytes from `at` on stand for.
pub open spec fn spec_i32_at(data: Seq<u8>, at: int) -> i32 {
    spec_word_i32(spec_u32_at(data, at))
}

/// A signed number as its four bytes.
pub open spec fn spec_i32_bytes(x: i32) -> Seq<u8> {
    spec_u32_bytes(spec_i32_word(x))
}

/// A number takes four bytes.
pub proof fn lemma_u32_bytes_len(x: u32)
    ensures
        spec_u32_bytes(x).len() == 4,
{
    reveal(spec_u32_bytes);
}

/// Reading a number where it was written gives it back.
pub proof fn lemma_u32_round_trip(before: Seq<u8>, x: u32, after: Seq<u8>)
    ensures
        spec_u32_bytes(x).len() == 4,
        spec_u32_at(before + spec_u32_bytes(x) + after, before.len() as int) == x,
{
    reveal(spec_u32_bytes);
    reveal(spec_u32_at);
    let data = before + spec_u32_bytes(x) + after;
    let at = before.len() as int;
    assert(data[at] == spec_u32_bytes(x)[0]);
    assert(data[at + 1] == spec_u32_bytes(x)[1]);
    assert(data[at + 2] == spec_u32_bytes(x)[2]);
    assert(data[at + 3] == spec_u32_bytes(x)[3]);
}

/// Reading a signed number where it was written gives it back.
pub proof fn lemma_i32_round_trip(before: Seq<u8>, x: i32, after: Seq<u8>)
    ensures
        spec_i32_bytes(x).len() == 4,
        spec_i32_at(before + spec_i32_bytes(x) + after, before.len() as int) == x,
{
    lemma_u32_round_trip(before, spec_i32_word(x), after);
}

/// Appends a number as four bytes.
pub fn put_u32(out: &mut Vec<u8>, x: u32)
    ensures
        final(out)@ == old(out)@ + spec_u32_bytes(x),
{
    out.push((x % 256) as u8);
    out.push(((x / 256) % 256) as u8);
    out.push(((x / 65536) % 256) as u8);
    out.push((x / 16777216) as u8);
    proof {
        reveal(spec_u32_bytes);
    }
    assert(out@ =~= old(out)@ + spec_u32_bytes(x));
}

/// Appends a signed number as four bytes.
pub fn put_i32(out: &mut Vec<u8>, x: i32)
    ensures
        final(out)@ == old(out)@ + spec_i32_bytes(x),
{
    let word: u32 = if x >= 0 { x as u32 } else { (x as i64 + 0x1_0000_0000i64) as u32 };
    put_u32(out, word);
}

/// Reads the number that starts at `at`.
pub fn get_u32(data: &[u8], at: usize) -> (x: u32)
    requires
        at + 4 <= data@.len(),
    ensures
        x == spec_u32_at(data@, at as int),
{
    proof {
        reveal(spec_u32_at);
    }
    data[at] as u32 + 256 * (data[at + 1] as u32) + 65536 * (data[at + 2] as u32) + 16777216 * (
    data[at + 3] as u32)
}

/// Reads the signed number that starts at `at`.
pub fn get_i32(data: &[u8], at: usize) -> (x: i32)
    requires
        at + 4 <= data@.len(),
    ensures
        x == spec_i32_at(data@, at as int),
{
    let word: u32 = get_u32(data, at);
    if word < 0x8000_0000 {
        word as i32
    } else {
        (word as i64 - 0x1_0000_0000i64) as i32
    }
}

/// The mark that opens a resource file.
pub open spec fn resource_mark() -> Seq<u8> {
    seq![0x53u8, 0x42u8, 0x52u8, 0x53u8]
}

/// The mark that opens a model file.
pub open spec fn model_mark() -> Seq<u8> {
    seq![0x53u8, 0x42u8, 0x4du8, 0x44u8]
}

/// Whether a resource can be stored: its sizes fit four bytes.
pub open spec fn resource_encodable(r: Resource) -> bool {
    &&& r.frame_len <= u32::MAX
    &&& r.hop <= u32::MAX
    &&& r.feature_dim <= u32::MAX
}

/// A resource as the bytes of its file.
pub open spec fn spec_encode_resource(r: Resource) -> Seq<u8> {
    resource_mark() + spec_i32_bytes(r.format.sample_rate) + spec_i32_bytes(r.format.num_channels)
        + spec_i32_bytes(r.format.bits_per_sample) + spec_u32_bytes(r.frame_len as u32)
        + spec_u32_bytes(r.hop as u32) + spec_u32_bytes(r.feature_dim as u32) + spec_i32_bytes(
        r.vad_level,
    ) + spec_u32_bytes(r.vad_hangover)
}

/// The resource that the bytes of a file stand for, if they are a resource
/// file: the mark and eight numbers, nothing more.
pub open spec fn spec_decode_resource(data: Seq<u8>) -> Option<Resource> {
    if data.len() == 36 && data.subrange(0, 4) == resource_mark() {
        Some(
            Resource {
                format: SampleFormat {
                    sample_rate: spec_i32_at(data, 4),
                    num_channels: spec_i32_at(data, 8),
                    bits_per_sample: spec_i32_at(data, 12),
                },
                frame_len: spec_u32_at(data, 16) as usize,
                hop: spec_u32_at(data, 20) as usize,
                feature_dim: spec_u32_at(data, 24) as usize,
                vad_level: spec_i32_at(data, 28),
                vad_hangover: spec_u32_at(data, 32),
            },
        )
    } else {
        None
    }
}

/// Writes a resource as the bytes of its file, or `None` where a size does
/// not fit.
pub fn encode_resource(r: &Resource) -> (out: Option<Vec<u8>>)
    ensures
        match out {
            Some(bytes) => resource_encodable(*r) && bytes@ == spec_encode_resource(*r),
            None => !resource_encodable(*r),
        },
{
    if r.frame_len > u32::MAX as usize || r.hop > u32::MAX as usize || r.feature_dim
        > u32::MAX as usize {
        return None;
    }
    let mut out: Vec<u8> = Vec::with_capacity(36);
    out.push(0x53);
    out.push(0x42);
    out.push(0x52);
    out.push(0x53);
    assert(out@ =~= resource_mark());
    put_i32(&mut out, r.format.sample_rate);
    put_i32(&mut out, r.format.num_channels);
    put_i32(&mut out, r.format.bits_per_sample);
    put_u32(&mut out, r.frame_len as u32);
    put_u32(&mut out, r.hop as u32);
    put_u32(&mut out, r.feature_dim as u32);
    put_i32(&mut out, r.vad_level);
    put_u32(&mut out, r.vad_hangover);
    Some(out)
}

/// Reads a resource from the bytes of its file, or `None` where they are no
/// resource file.
pub fn decode_resource(data: &[u8]) -> (r: Option<Resource>)
    ensures
        r == spec_decode_resource(data@),
{
    if data.len() != 36 {
        return None;
    }
    if data[0] != 0x53 || data[1] != 0x42 || data[2] != 0x52 || data[3] != 0x53 {
        assert(data@.subrange(0, 4)[0] == data@[0]);
        assert(data@.subrange(0, 4)[1] == data@[1]);
        assert(data@.subrange(0, 4)[2] == data@[2]);
        assert(data@.subrange(0, 4)[3] == data@[3]);
        return None;
    }
    assert(data@.subrange(0, 4) =~= resource_mark());
    Some(
        Resource {
            format: SampleFormat {
                sample_rate: get_i32(data, 4),
                num_channels: get_i32(data, 8),
                bits_per_sample: get_i32(data, 12),
            },
            frame_len: get_u32(data, 16) as usize,
            hop: get_u32(data, 20) as usize,
            feature_dim: get_u32(data, 24) as usize,
            vad_level: get_i32(data, 28),
            vad_hangover: get_u32(data, 32),
        },
    )
}

/// Eight pieces after a first can be grouped around any one of them.
proof fn lemma_regroup_eight(
    mark: Seq<u8>,
    b1: Seq<u8>,
    b2: Seq<u8>,
    b3: Seq<u8>,
    b4: Seq<u8>,
    b5: Seq<u8>,
    b6: Seq<u8>,
    b7: Seq<u8>,
    b8: Seq<u8>,
)
    ensures
        ({
            let data = mark + b1 + b2 + b3 + b4 + b5 + b6 + b7 + b8;
            &&& data == mark + b1 + (b2 + b3 + b4 + b5 + b6 + b7 + b8)
            &&& data == mark + b1 + b2 + (b3 + b4 + b5 + b6 + b7 + b8)
            &&& data == mark + b1 + b2 + b3 + (b4 + b5 + b6 + b7 + b8)
            &&& data == mark + b1 + b2 + b3 + b4 + (b5 + b6 + b7 + b8)
            &&& data == mark + b1 + b2 + b3 + b4 + b5 + (b6 + b7 + b8)
            &&& data == mark + b1 + b2 + b3 + b4 + b5 + b6 + (b7 + b8)
            &&& data == mark + b1 + b2 + b3 + b4 + b5 + b6 + b7 + b8 + Seq::<u8>::empty()
            &&& data.len() == mark.len() + b1.len() + b2.len() + b3.len() + b4.len() + b5.len()
                + b6.len() + b7.len() + b8.len()
            &&& data.subrange(0, mark.len() as int) == mark
        }),
{
    let data = mark + b1 + b2 + b3 + b4 + b5 + b6 + b7 + b8;
    assert(data =~= mark + b1 + (b2 + b3 + b4 + b5 + b6 + b7 + b8));
    assert(data =~= mark + b1 + b2 + (b3 + b4 + b5 + b6 + b7 + b8));
    assert(data =~= mark + b1 + b2 + b3 + (b4 + b5 + b6 + b7 + b8));
    assert(data =~= mark + b1 + b2 + b3 + b4 + (b5 + b6 + b7 + b8));
    assert(data =~= mark + b1 + b2 + b3 + b4 + b5 + (b6 + b7 + b8));
    assert(data =~= mark + b1 + b2 + b3 + b4 + b5 + b6 + (b7 + b8));
    assert(data =~= mark + b1 + b2 + b3 + b4 + b5 + b6 + b7 + b8 + Seq::<u8>::empty());
    assert(data.subrange(0, mark.len() as int) =~= mark);
}

/// Reading a resource file that was written gives the resource back.
pub proof fn lemma_resource_round_trip(r: Resource)
    requires
        resource_encodable(r),
    ensures
        spec_decode_resource(spec_encode_resource(r)) == Some(r),
{
    let e = Seq::<u8>::empty();
    let mark = resource_mark();
    let b1 = spec_i32_bytes(r.format.sample_rate);
    let b2 = spec_i32_bytes(r.format.num_channels);
    let b3 = spec_i32_bytes(r.format.bits_per_sample);
    let b4 = spec_u32_bytes(r.frame_len as u32);
    let b5 = spec_u32_bytes(r.hop as u32);
    let b6 = spec_u32_bytes(r.feature_dim as u32);
    let b7 = spec_i32_bytes(r.vad_level);
    let b8 = spec_u32_bytes(r.vad_hangover);
    let data = spec_encode_resource(r);
    lemma_regroup_eight(mark, b1, b2, b3, b4, b5, b6, b7, b8);
    assert(spec_i32_at(data, 4) == r.format.sample_rate) by {
        lemma_i32_round_trip(mark, r.format.sample_rate, b2 + b3 + b4 + b5 + b6 + b7 + b8);
    }
    assert(b1.len() == 4) by {
        lemma_i32_round_trip(e, r.format.sample_rate, e);
    }
    assert(spec_i32_at(data, 8) == r.format.num_channels && b2.len() == 4) by {
        lemma_i32_round_trip(mark + b1, r.format.num_channels, b3 + b4 + b5 + b6 + b7 + b8);
    }
    assert(spec_i32_at(data, 12) == r.format.bits_per_sample && b3.len() == 4) by {
        lemma_i32_round_trip(mark + b1 + b2, r.format.bits_per_sample, b4 + b5 + b6 + b7 + b8);
    }
    assert(spec_u32_at(data, 16) == r.frame_len && b4.len() == 4) by {
        lemma_u32_round_trip(mark + b1 + b2 + b3, r.frame_len as u32, b5 + b6 + b7 + b8);
    }
    assert(spec_u32_at(data, 20) == r.hop && b5.len() == 4) by {
        lemma_u32_round_trip(mark + b1 + b2 + b3 + b4, r.hop as u32, b6 + b7 + b8);
    }
    assert(spec_u32_at(data, 24) == r.feature_dim && b6.len() == 4) by {
        lemma_u32_round_trip(mark + b1 + b2 + b3 + b4 + b5, r.feature_dim as u32, b7 + b8);
    }
    assert(spec_i32_at(data, 28) == r.vad_level && b7.len() == 4) by {
        lemma_i32_round_trip(mark + b1 + b2 + b3 + b4 + b5 + b6, r.vad_level, b8);
    }
    assert(spec_u32_at(data, 32) == r.vad_hangover && b8.len() == 4) by {
        lemma_u32_round_trip(mark + b1 + b2 + b3 + b4 + b5 + b6 + b7, r.vad_hangover, e);
    }
}

/// A text of one-byte characters as its bytes.
pub open spec fn text_bytes(text: Seq<char>) -> Seq<u8> {
    Seq::new(text.len(), |i: int| text[i] as u8)
}

/// Bytes as a text of one-byte characters.
pub open spec fn bytes_text(bytes: Seq<u8>) -> Seq<char> {
    Seq::new(bytes.len(), |i: int| bytes[i] as char)
}

/// Weights as their bytes, four per weight.
pub open spec fn weights_bytes(weights: Seq<i32>) -> Seq<u8>
    decreases weights.len(),
{
    if weights.len() == 0 {
        Seq::empty()
    } else {
        weights_bytes(weights.drop_last()) + spec_i32_bytes(weights.last())
    }
}

/// The `n` weights that are stored from `at` on.
pub open spec fn spec_weights_at(data: Seq<u8>, at: int, n: nat) -> Seq<i32> {
    Seq::new(n, |j: int| spec_i32_at(data, at + 4 * j))
}

/// Whether a hotword can be stored: its sizes fit four bytes, and its
/// sensitivity is well formed.
pub open spec fn hotword_encodable(h: HotwordParamsView) -> bool {
    &&& h.weights.len() <= u32::MAX
    &&& h.sensitivity.len() <= u32::MAX
    &&& is_sensitivity(h.sensitivity)
}

/// Whether a model can be stored: the number of its hotwords fits four
/// bytes, and every hotword can be stored.
pub open spec fn model_encodable(m: Seq<HotwordParamsView>) -> bool {
    &&& m.len() <= u32::MAX
    &&& forall|j: int| 0 <= j < m.len() ==> hotword_encodable(#[trigger] m[j])
}

/// A hotword as its bytes.
pub open spec fn spec_encode_hotword(h: HotwordParamsView) -> Seq<u8> {
    spec_u32_bytes(h.weights.len() as u32) + spec_i32_bytes(h.bias) + spec_i32_bytes(
        h.min_amplitude,
    ) + weights_bytes(h.weights) + spec_u32_bytes(h.sensitivity.len() as u32) + text_bytes(
        h.sensitivity,
    )
}

/// Hotwords as their bytes, one after the other.
pub open spec fn spec_encode_hotwords(hotwords: Seq<HotwordParamsView>) -> Seq<u8>
    decreases hotwords.len(),
{
    if hotwords.len() == 0 {
        Seq::empty()
    } else {
        spec_encode_hotwords(hotwords.drop_last()) + spec_encode_hotword(hotwords.last())
    }
}

/// A model as the bytes of its file.
pub open spec fn spec_encode_model(m: Seq<HotwordParamsView>) -> Seq<u8> {
    model_mark() + spec_u32_bytes(m.len() as u32) + spec_encode_hotwords(m)
}

/// The hotword that is stored from `at` on and the place where it ends, if
/// one is stored there in full and its sensitivity is well formed.
#[verifier::opaque]
pub open spec fn spec_parse_hotword(data: Seq<u8>, at: int) -> Option<(HotwordParamsView, int)> {
    if at + 12 > data.len() {
        None
    } else {
        let dim = spec_u32_at(data, at) as int;
        let weights_at = at + 12;
        if weights_at + 4 * dim + 4 > data.len() {
            None
        } else {
            let length_at = weights_at + 4 * dim;
            let length = spec_u32_at(data, length_at) as int;
            let text_at = length_at + 4;
            if text_at + length > data.len() {
                None
            } else {
                let text = bytes_text(data.subrange(text_at, text_at + length));
                if !is_sensitivity(text) {
                    None
                } else {
                    Some(
                        (
                            HotwordParamsView {
                                weights: spec_weights_at(data, weights_at, dim as nat),
                                bias: spec_i32_at(data, at + 4),
                                min_amplitude: spec_i32_at(data, at + 8),
                                sensitivity: text,
                            },
                            text_at + length,
                        ),
                    )
                }
            }
        }
    }
}

/// The `count` hotwords that are stored from `at` on, one after the other,
/// and the place where the last one ends.
pub open spec fn spec_parse_hotwords(data: Seq<u8>, at: int, count: nat) -> Option<
    (Seq<HotwordParamsView>, int),
>
    decreases count,
{
    if count == 0 {
        Some((Seq::empty(), at))
    } else {
        match spec_parse_hotwords(data, at, (count - 1) as nat) {
            None => None,
            Some((before, place)) => match spec_parse_hotword(data, place) {
                None => None,
                Some((hotword, end)) => Some((before.push(hotword), end)),
            },
        }
    }
}

/// The model that the bytes of a file stand for, if they are a model file:
/// the mark, the number of hotwords and that many hotwords, nothing more.
pub open spec fn spec_decode_model(data: Seq<u8>) -> Option<Seq<HotwordParamsView>> {
    if data.len() < 8 || data.subrange(0, 4) != model_mark() {
        None
    } else {
        match spec_parse_hotwords(data, 8, spec_u32_at(data, 4) as nat) {
            None => None,
            Some((hotwords, end)) => if end == data.len() {
                Some(hotwords)
            } else {
                None
            },
        }
    }
}

/// The text of one character that a byte of a sensitivity stands for.
fn sensitivity_piece(b: u8) -> (piece: Option<&'static str>)
    ensures
        match piece {
            Some(p) => p@ == seq![b as char] && (b == 46 || 48 <= b <= 57),
            None => !(b == 46 || 48 <= b <= 57),
        },
{
    proof {
        reveal_strlit(".");
        reveal_strlit("0");
        reveal_strlit("1");
        reveal_strlit("2");
        reveal_strlit("3");
        reveal_strlit("4");
        reveal_strlit("5");
        reveal_strlit("6");
        reveal_strlit("7");
        reveal_strlit("8");
        reveal_strlit("9");
    }
    let piece: Option<&'static str> = if b == 46 {
        Some(".")
    } else if b == 48 {
        Some("0")
    } else if b == 49 {
        Some("1")
    } else if b == 50 {
        Some("2")
    } else if b == 51 {
        Some("3")
    } else if b == 52 {
        Some("4")
    } else if b == 53 {
        Some("5")
    } else if b == 54 {
        Some("6")
    } else if b == 55 {
        Some("7")
    } else if b == 56 {
        Some("8")
    } else if b == 57 {
        Some("9")
    } else {
        None
    };
    proof {
        match piece {
            Some(p) => {
                assert(p@ =~= seq![b as char]);
            },
            None => {},
        }
    }
    piece
}

/// A well-formed sensitivity holds points and digits only.
pub proof fn lemma_sensitivity_characters(text: Seq<char>, i: int)
    requires
        is_sensitivity(text),
        0 <= i < text.len(),
    ensures
        text[i] == '.' || is_digit(text[i]),
        (text[i] as u8) as char == text[i],
{
    if i == 0 {
        assert(text[0] == '0' || text[0] == '1');
    } else if i == 1 {
        assert(text[1] == '.');
    } else {
        assert(is_digit(text[i]));
    }
    assert(text[i] as u32 <= 57);
    lemma_byte_character(text[i]);
}

/// A character of one byte is the character of its byte.
pub proof fn lemma_byte_character(c: char)
    requires
        c as u32 <= 255,
    ensures
        (c as u8) as char == c,
{
    assert((c as u8) == (c as u32) as u8);
    assert((((c as u32) as u8) as char) == c);
}

/// Reads the sensitivity that is stored in the bytes from `from` up to `to`.
fn read_sensitivity(data: &[u8], from: usize, to: usize) -> (r: Option<String>)
    requires
        from <= to <= data@.len(),
    ensures
        match r {
            Some(text) => text@ == bytes_text(data@.subrange(from as int, to as int))
                && is_sensitivity(text@),
            None => !is_sensitivity(bytes_text(data@.subrange(from as int, to as int))),
        },
{
    let ghost wanted = bytes_text(data@.subrange(from as int, to as int));
    let mut text: String = String::new();
    let mut i: usize = from;
    while i < to
        invariant
            from <= i <= to,
            to <= data@.len(),
            wanted == bytes_text(data@.subrange(from as int, to as int)),
            text@ == wanted.take(i - from),
        decreases to - i,
    {
        match sensitivity_piece(data[i]) {
            None => {
                proof {
                    if is_sensitivity(wanted) {
                        lemma_sensitivity_characters(wanted, i - from);
                        assert(wanted[i - from] == data@[i as int] as char);
                    }
                }
                return None;
            },
            Some(piece) => {
                text.append(piece);
                proof {
                    assert(wanted[i - from] == data@[i as int] as char);
                    assert(wanted.take(i - from) + seq![data@[i as int] as char] =~= wanted.take(
                        i + 1 - from,
                    ));
                }
            },
        }
        i += 1;
    }
    assert(wanted.take(to - from) =~= wanted);
    match parse_sensitivity(text.as_str()) {
        Some(_) => Some(text),
        None => None,
    }
}

/// Reads the hotword that starts at `at`.
fn read_hotword(data: &[u8], at: usize) -> (r: Option<(HotwordParams, usize)>)
    requires
        at <= data@.len(),
    ensures
        match r {
            Some((hotword, end)) => spec_parse_hotword(data@, at as int) == Some(
                (hotword@, end as int),
            ) && at <= end <= data@.len(),
            None => spec_parse_hotword(data@, at as int) is None,
        },
{
    proof {
        reveal(spec_parse_hotword);
    }
    let n: usize = data.len();
    if n - at < 12 {
        return None;
    }
    let dim: u32 = get_u32(data, at);
    let bias: i32 = get_i32(data, at + 4);
    let min_amplitude: i32 = get_i32(data, at + 8);
    let weights_at: usize = at + 12;
    if ((n - weights_at) as u64) < 4 * (dim as u64) + 4 {
        return None;
    }
    let count: usize = dim as usize;
    let mut weights: Vec<i32> = Vec::new();
    let mut j: usize = 0;
    while j < count
        invariant
            j <= count,
            count == dim,
            n == data@.len(),
            weights_at + 4 * count + 4 <= n,
            weights@ == spec_weights_at(data@, weights_at as int, j as nat),
        decreases count - j,
    {
        weights.push(get_i32(data, weights_at + 4 * j));
        assert(weights@ =~= spec_weights_at(data@, weights_at as int, (j + 1) as nat));
        j += 1;
    }
    let length_at: usize = weights_at + 4 * count;
    let length: u32 = get_u32(data, length_at);
    let text_at: usize = length_at + 4;
    if ((n - text_at) as u64) < length as u64 {
        return None;
    }
    let end: usize = text_at + length as usize;
    match read_sensitivity(data, text_at, end) {
        None => None,
        Some(sensitivity) => Some(
            (HotwordParams { weights, bias, min_amplitude, sensitivity }, end),
        ),
    }
}

/// Reads a model from the bytes of its file, or `None` where they are no
/// model file.
pub fn decode_model(data: &[u8]) -> (r: Option<HotwordModel>)
    ensures
        match r {
            Some(model) => spec_decode_model(data@) == Some(model@),
            None => spec_decode_model(data@) is None,
        },
{
    if data.len() < 8 {
        return None;
    }
    if data[0] != 0x53 || data[1] != 0x42 || data[2] != 0x4d || data[3] != 0x44 {
        assert(data@.subrange(0, 4)[0] == data@[0]);
        assert(data@.subrange(0, 4)[1] == data@[1]);
        assert(data@.subrange(0, 4)[2] == data@[2]);
        assert(data@.subrange(0, 4)[3] == data@[3]);
        return None;
    }
    assert(data@.subrange(0, 4) =~= model_mark());
    let count: u32 = get_u32(data, 4);
    let mut hotwords: Vec<HotwordParams> = Vec::new();
    let mut at: usize = 8;
    let mut k: u32 = 0;
    while k < count
        invariant
            k <= count,
            count == spec_u32_at(data@, 4),
            data@.subrange(0, 4) == model_mark(),
            8 <= at <= data@.len(),
            spec_parse_hotwords(data@, 8, k as nat) == Some(
                (Seq::new(hotwords@.len(), |j: int| hotwords@[j]@), at as int),
            ),
            hotwords@.len() == k,
        decreases count - k,
    {
        let ghost before = Seq::new(hotwords@.len(), |j: int| hotwords@[j]@);
        match read_hotword(data, at) {
            None => {
                proof {
                    assert(spec_parse_hotwords(data@, 8, (k + 1) as nat) is None);
                    lemma_parse_stops(data@, 8, (k + 1) as nat, count as nat);
                }
                return None;
            },
            Some((hotword, end)) => {
                hotwords.push(hotword);
                at = end;
                assert(Seq::new(hotwords@.len(), |j: int| hotwords@[j]@) =~= before.push(
                    hotword@,
                ));
            },
        }
        k += 1;
    }
    if at != data.len() {
        return None;
    }
    let model = HotwordModel { hotwords };
    assert(model@ =~= Seq::new(model.hotwords@.len(), |j: int| model.hotwords@[j]@));
    Some(model)
}

/// Where fewer hotwords cannot be read, more cannot either.
pub proof fn lemma_parse_stops(data: Seq<u8>, at: int, fewer: nat, more: nat)
    requires
        spec_parse_hotwords(data, at, fewer) is None,
        fewer <= more,
    ensures
        spec_parse_hotwords(data, at, more) is None,
    decreases more,
{
    if fewer < more {
        lemma_parse_stops(data, at, fewer, (more - 1) as nat);
    }
}

/// Appends a hotword as its bytes, if it can be stored, and says whether
/// it could.
fn write_hotword(out: &mut Vec<u8>, hotword: &HotwordParams) -> (ok: bool)
    ensures
        ok == hotword_encodable(hotword@),
        ok ==> final(out)@ == old(out)@ + spec_encode_hotword(hotword@),
{
    if hotword.weights.len() > u32::MAX as usize {
        return false;
    }
    let chars: Vec<char> = chars_of(hotword.sensitivity.as_str());
    if chars.len() > u32::MAX as usize {
        return false;
    }
    if parse_sensitivity(hotword.sensitivity.as_str()).is_none() {
        return false;
    }
    put_u32(out, hotword.weights.len() as u32);
    put_i32(out, hotword.bias);
    put_i32(out, hotword.min_amplitude);
    let ghost head = out@;
    let mut j: usize = 0;
    while j < hotword.weights.len()
        invariant
            j <= hotword.weights.len(),
            out@ == head + weights_bytes(hotword.weights@.take(j as int)),
        decreases hotword.weights.len() - j,
    {
        put_i32(out, hotword.weights[j]);
        proof {
            let now = hotword.weights@.take(j + 1);
            assert(now.drop_last() =~= hotword.weights@.take(j as int));
            assert(now.last() == hotword.weights@[j as int]);
            assert(out@ =~= head + weights_bytes(now));
        }
        j += 1;
    }
    assert(hotword.weights@.take(j as int) =~= hotword.weights@);
    put_u32(out, chars.len() as u32);
    let ghost body = out@;
    let mut i: usize = 0;
    while i < chars.len()
        invariant
            i <= chars.len(),
            chars@ == hotword.sensitivity@,
            is_sensitivity(chars@),
            out@ == body + text_bytes(chars@.take(i as int)),
        decreases chars.len() - i,
    {
        proof {
            lemma_sensitivity_characters(chars@, i as int);
        }
        let code: u32 = chars[i] as u32;
        out.push(code as u8);
        assert(out@ =~= body + text_bytes(chars@.take(i + 1)));
        i += 1;
    }
    assert(chars@.take(i as int) =~= chars@);
    assert(out@ =~= old(out)@ + spec_encode_hotword(hotword@));
    true
}

/// Writes a model as the bytes of its file, or `None` where it cannot be
/// stored: where a size does not fit, or a sensitivity is malformed.
pub fn encode_model(model: &HotwordModel) -> (out: Option<Vec<u8>>)
    ensures
        match out {
            Some(bytes) => model_encodable(model@) && bytes@ == spec_encode_model(model@),
            None => !model_encodable(model@),
        },
{
    if model.hotwords.len() > u32::MAX as usize {
        return None;
    }
    let mut out: Vec<u8> = Vec::new();
    out.push(0x53);
    out.push(0x42);
    out.push(0x4d);
    out.push(0x44);
    assert(out@ =~= model_mark());
    put_u32(&mut out, model.hotwords.len() as u32);
    let ghost head = out@;
    let mut k: usize = 0;
    while k < model.hotwords.len()
        invariant
            k <= model.hotwords.len(),
            model.hotwords.len() <= u32::MAX,
            head == model_mark() + spec_u32_bytes(model@.len() as u32),
            out@ == head + spec_encode_hotwords(model@.take(k as int)),
            forall|j: int| 0 <= j < k ==> hotword_encodable(#[trigger] model@[j]),
        decreases model.hotwords.len() - k,
    {
        assert(model@[k as int] == model.hotwords@[k as int]@);
        let ok: bool = write_hotword(&mut out, &model.hotwords[k]);
        if !ok {
            return None;
        }
        proof {
            let now = model@.take(k + 1);
            assert(now.drop_last() =~= model@.take(k as int));
            assert(now.last() == model@[k as int]);
            assert(out@ =~= head + spec_encode_hotwords(now));
        }
        k += 1;
    }
    assert(model@.take(k as int) =~= model@);
    Some(out)
}

/// Stored weights take four bytes each and are read back one by one.
pub proof fn lemma_weights_round_trip(before: Seq<u8>, weights: Seq<i32>, after: Seq<u8>)
    ensures
        weights_bytes(weights).len() == 4 * weights.len(),
        spec_weights_at(
            before + weights_bytes(weights) + after,
            before.len() as int,
            weights.len(),
        ) == weights,
    decreases weights.len(),
{
    let data = before + weights_bytes(weights) + after;
    let read = spec_weights_at(data, before.len() as int, weights.len());
    if weights.len() > 0 {
        let head = weights.drop_last();
        let last = spec_i32_bytes(weights.last());
        lemma_weights_round_trip(before, head, last + after);
        assert(before + weights_bytes(head) + (last + after) =~= data);
        lemma_i32_round_trip(before + weights_bytes(head), weights.last(), after);
        assert(before + weights_bytes(head) + last + after =~= data);
        let read_head = spec_weights_at(data, before.len() as int, head.len());
        assert forall|j: int| 0 <= j < weights.len() implies read[j] == weights[j] by {
            if j < head.len() {
                assert(read[j] == read_head[j]);
                assert(head[j] == weights[j]);
            }
        }
    }
    assert(read =~= weights);
}

/// A stored sensitivity is read back as it was.
pub proof fn lemma_text_round_trip(text: Seq<char>)
    requires
        is_sensitivity(text),
    ensures
        bytes_text(text_bytes(text)) == text,
{
    assert forall|i: int| 0 <= i < text.len() implies bytes_text(text_bytes(text))[i]
        == text[i] by {
        lemma_sensitivity_characters(text, i);
    }
    assert(bytes_text(text_bytes(text)) =~= text);
}

/// Six pieces between two others can be grouped around any one of them.
proof fn lemma_regroup(
    before: Seq<u8>,
    b1: Seq<u8>,
    b2: Seq<u8>,
    b3: Seq<u8>,
    b4: Seq<u8>,
    b5: Seq<u8>,
    b6: Seq<u8>,
    after: Seq<u8>,
)
    ensures
        ({
            let data = before + (b1 + b2 + b3 + b4 + b5 + b6) + after;
            &&& data == before + b1 + (b2 + b3 + b4 + b5 + b6 + after)
            &&& data == before + b1 + b2 + (b3 + b4 + b5 + b6 + after)
            &&& data == before + b1 + b2 + b3 + (b4 + b5 + b6 + after)
            &&& data == before + b1 + b2 + b3 + b4 + (b5 + b6 + after)
            &&& data == before + b1 + b2 + b3 + b4 + b5 + (b6 + after)
            &&& data == before + b1 + b2 + b3 + b4 + b5 + b6 + after
            &&& data.len() == before.len() + b1.len() + b2.len() + b3.len() + b4.len() + b5.len()
                + b6.len() + after.len()
        }),
{
    let data = before + (b1 + b2 + b3 + b4 + b5 + b6) + after;
    assert(data =~= before + b1 + (b2 + b3 + b4 + b5 + b6 + after));
    assert(data =~= before + b1 + b2 + (b3 + b4 + b5 + b6 + after));
    assert(data =~= before + b1 + b2 + b3 + (b4 + b5 + b6 + after));
    assert(data =~= before + b1 + b2 + b3 + b4 + (b5 + b6 + after));
    assert(data =~= before + b1 + b2 + b3 + b4 + b5 + (b6 + after));
    assert(data =~= before + b1 + b2 + b3 + b4 + b5 + b6 + after);
}

/// A piece between two others is found where the first ends.
proof fn lemma_piece(before: Seq<u8>, piece: Seq<u8>, after: Seq<u8>)
    ensures
        (before + piece + after).subrange(
            before.len() as int,
            (before.len() + piece.len()) as int,
        )
            == piece,
{
    assert((before + piece + after).subrange(
            before.len() as int,
            (before.len() + piece.len()) as int,
        )
        =~= piece);
}

/// A hotword is read back where it was written, and reading ends where its
/// bytes end.
pub proof fn lemma_hotword_round_trip(before: Seq<u8>, h: HotwordParamsView, after: Seq<u8>)
    requires
        hotword_encodable(h),
    ensures
        spec_parse_hotword(before + spec_encode_hotword(h) + after, before.len() as int) == Some(
            (h, (before.len() + spec_encode_hotword(h).len()) as int),
        ),
{
    let b1 = spec_u32_bytes(h.weights.len() as u32);
    let b2 = spec_i32_bytes(h.bias);
    let b3 = spec_i32_bytes(h.min_amplitude);
    let b4 = weights_bytes(h.weights);
    let b5 = spec_u32_bytes(h.sensitivity.len() as u32);
    let b6 = text_bytes(h.sensitivity);
    let data = before + spec_encode_hotword(h) + after;
    let at = before.len() as int;
    let dim = h.weights.len() as int;
    let length = h.sensitivity.len() as int;
    lemma_regroup(before, b1, b2, b3, b4, b5, b6, after);
    lemma_weights_round_trip(before + b1 + b2 + b3, h.weights, b5 + b6 + after);
    assert(b1.len() == 4 && b2.len() == 4 && b3.len() == 4 && b5.len() == 4) by {
        lemma_u32_bytes_len(h.weights.len() as u32);
        lemma_u32_bytes_len(spec_i32_word(h.bias));
        lemma_u32_bytes_len(spec_i32_word(h.min_amplitude));
        lemma_u32_bytes_len(h.sensitivity.len() as u32);
    }
    assert(b4.len() == 4 * dim);
    assert(b6.len() == length);
    assert(data.len() == at + 16 + 4 * dim + length + after.len());
    assert(spec_u32_at(data, at) == h.weights.len()) by {
        lemma_u32_round_trip(before, h.weights.len() as u32, b2 + b3 + b4 + b5 + b6 + after);
    }
    assert(spec_i32_at(data, at + 4) == h.bias) by {
        lemma_i32_round_trip(before + b1, h.bias, b3 + b4 + b5 + b6 + after);
    }
    assert(spec_i32_at(data, at + 8) == h.min_amplitude) by {
        lemma_i32_round_trip(before + b1 + b2, h.min_amplitude, b4 + b5 + b6 + after);
    }
    assert(spec_weights_at(data, at + 12, dim as nat) == h.weights);
    assert(spec_u32_at(data, at + 12 + 4 * dim) == h.sensitivity.len()) by {
        lemma_u32_round_trip(
            before + b1 + b2 + b3 + b4,
            h.sensitivity.len() as u32,
            b6 + after,
        );
    }
    let text_at = at + 16 + 4 * dim;
    assert(data.subrange(text_at, text_at + length) == b6) by {
        lemma_piece(before + b1 + b2 + b3 + b4 + b5, b6, after);
    }
    lemma_text_round_trip(h.sensitivity);
    reveal(spec_parse_hotword);
}

/// Hotwords are read back where they were written, and reading ends where
/// their bytes end.
pub proof fn lemma_hotwords_round_trip(
    before: Seq<u8>,
    hotwords: Seq<HotwordParamsView>,
    after: Seq<u8>,
)
    requires
        forall|j: int| 0 <= j < hotwords.len() ==> hotword_encodable(#[trigger] hotwords[j]),
    ensures
        spec_parse_hotwords(
            before + spec_encode_hotwords(hotwords) + after,
            before.len() as int,
            hotwords.len(),
        ) == Some((hotwords, (before.len() + spec_encode_hotwords(hotwords).len()) as int)),
    decreases hotwords.len(),
{
    let data = before + spec_encode_hotwords(hotwords) + after;
    if hotwords.len() == 0 {
        assert(hotwords =~= Seq::<HotwordParamsView>::empty());
    } else {
        let head = hotwords.drop_last();
        let last = spec_encode_hotword(hotwords.last());
        assert forall|j: int| 0 <= j < head.len() implies hotword_encodable(#[trigger] head[j]) by {
            assert(head[j] == hotwords[j]);
        }
        lemma_hotwords_round_trip(before, head, last + after);
        assert(before + spec_encode_hotwords(head) + (last + after) =~= data);
        assert(hotword_encodable(hotwords.last()));
        lemma_hotword_round_trip(before + spec_encode_hotwords(head), hotwords.last(), after);
        assert(before + spec_encode_hotwords(head) + last + after =~= data);
        assert(head.push(hotwords.last()) =~= hotwords);
    }
}

/// Reading a model file that was written gives the model back.
pub proof fn lemma_model_round_trip(m: Seq<HotwordParamsView>)
    requires
        model_encodable(m),
    ensures
        spec_decode_model(spec_encode_model(m)) == Some(m),
{
    let head = model_mark() + spec_u32_bytes(m.len() as u32);
    let data = spec_encode_model(m);
    lemma_u32_round_trip(model_mark(), m.len() as u32, spec_encode_hotwords(m));
    lemma_hotwords_round_trip(head, m, Seq::<u8>::empty());
    assert(head + spec_encode_hotwords(m) + Seq::<u8>::empty() =~= data);
    assert(data.subrange(0, 4) =~= model_mark());
}

} // verus!

//! Audio chunks: decoding the four sample encodings under the audio gain
//! and mixing the channels down to the single analysis channel.
//!
//! The gain multiplies every sample as the caller delivered it, at the full
//! precision of its encoding; the product is cut to a canonical sample.
//!
//! A multi-channel chunk is interleaved: sample 1 of every channel, then
//! sample 2 of every channel, and so on. The analysis channel is the average
//! of the channels, rounded toward zero.

use vstd::prelude::*;
use crate::sample::{
    all_samples, is_sample, lemma_cut_is_sample, lemma_gain_in_sample, raw_f32, raw_i16, raw_i32,
    raw_u8, same_value, Gain, Raw,
};

verus! {

/// The samples of a chunk in one of the four encodings.
#[derive(Debug, Clone, Copy)]
pub enum Samples<'a> {
    /// Unsigned 8-bit PCM, centred on 128.
    Unsigned8(&'a [u8]),
    /// Signed 16-bit PCM.
    Signed16(&'a [i16]),
    /// Signed 32-bit PCM.
    Signed32(&'a [i32]),
    /// Single-precision floating point, given as bit patterns, 1.0 as full scale.
    Float32(&'a [u32]),
}

/// The mathematical value of [`Samples`].
pub enum SamplesView {
    Unsigned8(Seq<u8>),
    Signed16(Seq<i16>),
    Signed32(Seq<i32>),
    Float32(Seq<u32>),
}

impl<'a> View for Samples<'a> {
    type V = SamplesView;

    open spec fn view(&self) -> SamplesView {
        match *self {
            Samples::Unsigned8(d) => SamplesView::Unsigned8(d@),
            Samples::Signed16(d) => SamplesView::Signed16(d@),
            Samples::Signed32(d) => SamplesView::Signed32(d@),
            Samples::Float32(d) => SamplesView::Float32(d@),
        }
    }
}

/// One chunk of audio as a caller hands it over: the samples, the number of
/// interleaved channels, and whether the utterance ends with this chunk.
#[derive(Debug, Clone, Copy)]
pub struct AudioChunk<'a> {
    pub samples: Samples<'a>,
    pub channels: i32,
    pub is_end: bool,
}

/// The mathematical value of an [`AudioChunk`].
pub struct AudioChunkView {
    pub samples: SamplesView,
    pub channels: int,
    pub is_end: bool,
}

impl<'a> View for AudioChunk<'a> {
    type V = AudioChunkView;

    open spec fn view(&self) -> AudioChunkView {
        AudioChunkView {
            samples: self.samples@,
            channels: self.channels as int,
            is_end: self.is_end,
        }
    }
}

/// The number of samples of a chunk, over all channels.
pub open spec fn spec_len(samples: SamplesView) -> nat {
    match samples {
        SamplesView::Unsigned8(d) => d.len(),
        SamplesView::Signed16(d) => d.len(),
        SamplesView::Signed32(d) => d.len(),
        SamplesView::Float32(d) => d.len(),
    }
}

/// What sample `i` of a chunk delivers: the exact number that it stands
/// for; `None` for a floating-point value that is no number.
pub open spec fn spec_raw(samples: SamplesView, i: int) -> Option<Raw> {
    match samples {
        SamplesView::Unsigned8(d) => Some(raw_u8(d[i])),
        SamplesView::Signed16(d) => Some(raw_i16(d[i])),
        SamplesView::Signed32(d) => Some(raw_i32(d[i])),
        SamplesView::Float32(d) => raw_f32(d[i]),
    }
}

/// Whether every sample of a chunk is a number.
pub open spec fn all_numbers(samples: SamplesView) -> bool {
    forall|i: int| 0 <= i < spec_len(samples) ==> (#[trigger] spec_raw(samples, i)) is Some
}

/// The samples of a chunk under a gain, as canonical samples, still
/// interleaved: every sample as it was delivered is multiplied by the gain,
/// exactly, and the product is cut to a canonical sample. `None` if the
/// chunk holds a floating-point value that is no number.
pub open spec fn spec_gained(samples: SamplesView, gain: Gain) -> Option<Seq<i32>> {
    if all_numbers(samples) {
        Some(
            Seq::new(
                spec_len(samples),
                |i: int| gain.spec_scale(spec_raw(samples, i)->0) as i32,
            ),
        )
    } else {
        None
    }
}

/// The canonical samples of a chunk, still interleaved: its samples under
/// the gain 1. `None` if the chunk holds a floating-point value that is no
/// number.
pub open spec fn spec_canonical(samples: SamplesView) -> Option<Seq<i32>> {
    spec_gained(samples, Gain::spec_unity())
}

/// The first `n` samples of a chunk.
pub open spec fn spec_take(samples: SamplesView, n: int) -> SamplesView {
    match samples {
        SamplesView::Unsigned8(d) => SamplesView::Unsigned8(d.take(n)),
        SamplesView::Signed16(d) => SamplesView::Signed16(d.take(n)),
        SamplesView::Signed32(d) => SamplesView::Signed32(d.take(n)),
        SamplesView::Float32(d) => SamplesView::Float32(d.take(n)),
    }
}

fn decode_u8(data: &[u8], gain: Gain, storage: Vec<i32>) -> (out: Vec<i32>)
    ensures
        spec_gained(SamplesView::Unsigned8(data@), gain) == Some(out@),
        all_samples(out@),
{
    let ghost samples = SamplesView::Unsigned8(data@);
    let mut out: Vec<i32> = storage;
    out.clear();
    let mut i: usize = 0;
    while i < data.len()
        invariant
            i <= data.len(),
            out.len() == i,
            samples == SamplesView::Unsigned8(data@),
            forall|k: int|
                0 <= k < i ==> #[trigger] out[k] == gain.spec_scale(spec_raw(samples, k)->0)
                    && is_sample(out[k] as int),
        decreases data.len() - i,
    {
        out.push(gain.scale_u8(data[i]));
        i += 1;
    }
    assert(all_numbers(samples));
    assert(out@ =~= spec_gained(samples, gain)->0);
    out
}

fn decode_i16(data: &[i16], gain: Gain, storage: Vec<i32>) -> (out: Vec<i32>)
    ensures
        spec_gained(SamplesView::Signed16(data@), gain) == Some(out@),
        all_samples(out@),
{
    let ghost samples = SamplesView::Signed16(data@);
    let mut out: Vec<i32> = storage;
    out.clear();
    let mut i: usize = 0;
    while i < data.len()
        invariant
            i <= data.len(),
            out.len() == i,
            samples == SamplesView::Signed16(data@),
            forall|k: int|
                0 <= k < i ==> #[trigger] out[k] == gain.spec_scale(spec_raw(samples, k)->0)
                    && is_sample(out[k] as int),
        decreases data.len() - i,
    {
        out.push(gain.scale_i16(data[i]));
        i += 1;
    }
    assert(all_numbers(samples));
    assert(out@ =~= spec_gained(samples, gain)->0);
    out
}

fn decode_i32(data: &[i32], gain: Gain, storage: Vec<i32>) -> (out: Vec<i32>)
    ensures
        spec_gained(SamplesView::Signed32(data@), gain) == Some(out@),
        all_samples(out@),
{
    let ghost samples = SamplesView::Signed32(data@);
    let mut out: Vec<i32> = storage;
    out.clear();
    let mut i: usize = 0;
    while i < data.len()
        invariant
            i <= data.len(),
            out.len() == i,
            samples == SamplesView::Signed32(data@),
            forall|k: int|
                0 <= k < i ==> #[trigger] out[k] == gain.spec_scale(spec_raw(samples, k)->0)
                    && is_sample(out[k] as int),
        decreases data.len() - i,
    {
        out.push(gain.scale_i32(data[i]));
        i += 1;
    }
    assert(all_numbers(samples));
    assert(out@ =~= spec_gained(samples, gain)->0);
    out
}

fn decode_f32(data: &[u32], gain: Gain, storage: Vec<i32>) -> (r: (Vec<i32>, bool))
    ensures
        r.1 == (spec_gained(SamplesView::Float32(data@), gain) is Some),
        r.1 ==> spec_gained(SamplesView::Float32(data@), gain) == Some(r.0@) && all_samples(r.0@),
{
    let ghost samples = SamplesView::Float32(data@);
    let mut out: Vec<i32> = storage;
    out.clear();
    let mut i: usize = 0;
    while i < data.len()
        invariant
            i <= data.len(),
            out.len() == i,
            samples == SamplesView::Float32(data@),
            forall|k: int| 0 <= k < i ==> (#[trigger] spec_raw(samples, k)) is Some,
            forall|k: int|
                0 <= k < i ==> #[trigger] out[k] == gain.spec_scale(spec_raw(samples, k)->0)
                    && is_sample(out[k] as int),
        decreases data.len() - i,
    {
        match gain.scale_f32_bits(data[i]) {
            Some(v) => {
                out.push(v);
            },
            None => {
                assert(spec_raw(samples, i as int) is None);
                return (out, false);
            },
        }
        i += 1;
    }
    assert(all_numbers(samples));
    assert(out@ =~= spec_gained(samples, gain)->0);
    (out, true)
}

/// Decodes the samples of a chunk into canonical samples, under the gain 1.
pub fn canonical(samples: &Samples) -> (out: Option<Vec<i32>>)
    ensures
        match out {
            Some(v) => spec_canonical(samples@) == Some(v@) && all_samples(v@),
            None => spec_canonical(samples@) is None,
        },
{
    let (data, ok) = gained_into(samples, Gain::unity(), Vec::new());
    if ok {
        Some(data)
    } else {
        None
    }
}

/// Decodes the samples of a chunk under a gain into a vector that is given
/// for the purpose, whatever it held. Returns that vector and whether the
/// chunk could be decoded; if it could not, what the vector holds is of no
/// use.
pub fn gained_into(samples: &Samples, gain: Gain, storage: Vec<i32>) -> (r: (Vec<i32>, bool))
    ensures
        r.1 == (spec_gained(samples@, gain) is Some),
        r.1 ==> spec_gained(samples@, gain) == Some(r.0@) && all_samples(r.0@),
{
    match samples {
        Samples::Unsigned8(d) => (decode_u8(*d, gain, storage), true),
        Samples::Signed16(d) => (decode_i16(*d, gain, storage), true),
        Samples::Signed32(d) => (decode_i32(*d, gain, storage), true),
        Samples::Float32(d) => decode_f32(*d, gain, storage),
    }
}

/// The first `n` samples, or `None` where `n` is negative or more than
/// there are.
pub open spec fn spec_prefix(samples: SamplesView, n: int) -> Option<SamplesView> {
    if 0 <= n <= spec_len(samples) {
        Some(spec_take(samples, n))
    } else {
        None
    }
}

impl<'a> Samples<'a> {
    /// Returns the number of samples, over all channels.
    pub fn len(&self) -> (n: usize)
        ensures
            n == spec_len(self@),
    {
        match self {
            Samples::Unsigned8(d) => d.len(),
            Samples::Signed16(d) => d.len(),
            Samples::Signed32(d) => d.len(),
            Samples::Float32(d) => d.len(),
        }
    }

    /// Returns the first `n` samples, or `None` where `n` is negative or
    /// more than there are.
    pub fn prefix(&self, n: i32) -> (out: Option<Samples<'a>>)
        ensures
            match out {
                Some(p) => spec_prefix(self@, n as int) == Some(p@),
                None => spec_prefix(self@, n as int) is None,
            },
    {
        if n < 0 || n as usize > self.len() {
            return None;
        }
        let count: usize = n as usize;
        Some(
            match self {
                Samples::Unsigned8(d) => Samples::Unsigned8(
                    vstd::slice::slice_subrange(*d, 0, count),
                ),
                Samples::Signed16(d) => Samples::Signed16(
                    vstd::slice::slice_subrange(*d, 0, count),
                ),
                Samples::Signed32(d) => Samples::Signed32(
                    vstd::slice::slice_subrange(*d, 0, count),
                ),
                Samples::Float32(d) => Samples::Float32(vstd::slice::slice_subrange(*d, 0, count)),
            },
        )
    }
}

/// The sum of the `n` samples of `data` from `start` on.
pub open spec fn group_sum(data: Seq<i32>, start: int, n: nat) -> int
    decreases n,
{
    if n == 0 {
        0
    } else {
        group_sum(data, start, (n - 1) as nat) + data[start + n - 1]
    }
}

/// The average of `n` samples with the given sum, rounded toward zero.
pub open spec fn spec_average(sum: int, n: int) -> int {
    if sum >= 0 {
        sum / n
    } else {
        -((-sum) / n)
    }
}

/// The analysis channel of interleaved canonical samples: each group of
/// `channels` samples is averaged.
pub open spec fn spec_downmix(data: Seq<i32>, channels: int) -> Seq<i32>
    recommends
        channels >= 1,
        data.len() % (channels as nat) == 0,
{
    Seq::new(
        (data.len() as int / channels) as nat,
        |i: int| spec_average(group_sum(data, i * channels, channels as nat), channels) as i32,
    )
}

/// A sum of `n` samples lies within `n` times the sample range.
pub proof fn lemma_group_sum_bounds(data: Seq<i32>, start: int, n: nat)
    requires
        0 <= start,
        start + n <= data.len(),
        all_samples(data),
    ensures
        -32768 * n <= group_sum(data, start, n) <= 32767 * n,
    decreases n,
{
    if n > 0 {
        lemma_group_sum_bounds(data, start, (n - 1) as nat);
        assert(is_sample(data[start + n - 1] as int));
    }
}

/// The average of a sum within `n` times the sample range is a sample.
pub proof fn lemma_average_is_sample(sum: int, n: int)
    requires
        n >= 1,
        -32768 * n <= sum <= 32767 * n,
    ensures
        is_sample(spec_average(sum, n)),
{
    if sum >= 0 {
        assert(sum / n <= 32767) by (nonlinear_arith)
            requires
                n >= 1,
                0 <= sum <= 32767 * n,
        ;
        assert(sum / n >= 0) by (nonlinear_arith)
            requires
                n >= 1,
                0 <= sum,
        ;
    } else {
        let m = -sum;
        assert(m / n <= 32768) by (nonlinear_arith)
            requires
                n >= 1,
                0 <= m <= 32768 * n,
        ;
        assert(m / n >= 0) by (nonlinear_arith)
            requires
                n >= 1,
                0 <= m,
        ;
    }
}

/// A sum reads only the samples that it covers.
pub proof fn lemma_group_sum_local(
    a: Seq<i32>,
    b: Seq<i32>,
    start_a: int,
    start_b: int,
    n: nat,
)
    requires
        0 <= start_a,
        start_a + n <= a.len(),
        0 <= start_b,
        start_b + n <= b.len(),
        a.subrange(start_a, start_a + n) == b.subrange(start_b, start_b + n),
    ensures
        group_sum(a, start_a, n) == group_sum(b, start_b, n),
    decreases n,
{
    if n > 0 {
        let wa = a.subrange(start_a, start_a + n);
        let wb = b.subrange(start_b, start_b + n);
        assert(a.subrange(start_a, start_a + n - 1) =~= wa.take(n - 1));
        assert(b.subrange(start_b, start_b + n - 1) =~= wb.take(n - 1));
        lemma_group_sum_local(a, b, start_a, start_b, (n - 1) as nat);
        assert(a[start_a + n - 1] == wa[n - 1]);
        assert(b[start_b + n - 1] == wb[n - 1]);
    }
}

/// Mixes interleaved canonical samples down to the analysis channel.
pub fn downmix(data: &Vec<i32>, channels: i32) -> (out: Vec<i32>)
    requires
        channels >= 1,
        data.len() % (channels as usize) == 0,
        all_samples(data@),
    ensures
        out@ == spec_downmix(data@, channels as int),
        all_samples(out@),
{
    downmix_into(data, channels, Vec::new())
}

/// Mixes interleaved canonical samples down to the analysis channel, into
/// a vector that is given for the purpose, whatever it held, and returns
/// that vector.
pub fn downmix_into(data: &Vec<i32>, channels: i32, storage: Vec<i32>) -> (out: Vec<i32>)
    requires
        channels >= 1,
        data.len() % (channels as usize) == 0,
        all_samples(data@),
    ensures
        out@ == spec_downmix(data@, channels as int),
        all_samples(out@),
{
    let width: usize = channels as usize;
    let groups: usize = data.len() / width;
    let mut out: Vec<i32> = storage;
    out.clear();
    let mut i: usize = 0;
    let mut base: usize = 0;
    proof {
        assert(groups * width == data.len()) by (nonlinear_arith)
            requires
                width >= 1,
                groups == data.len() / width,
                data.len() % width == 0,
        ;
    }
    while i < groups
        invariant
            width == channels,
            channels >= 1,
            groups * width == data.len(),
            i <= groups,
            base == i * width,
            out.len() == i,
            all_samples(data@),
            forall|k: int|
                0 <= k < i ==> #[trigger] out[k] == spec_average(
                    group_sum(data@, k * width, width as nat),
                    width as int,
                ) && is_sample(out[k] as int),
        decreases groups - i,
    {
        proof {
            assert((i + 1) * width <= groups * width) by (nonlinear_arith)
                requires
                    i + 1 <= groups,
                    width >= 1,
            ;
            assert((i + 1) * width == i * width + width) by (nonlinear_arith);
        }
        let mut sum: i64 = 0;
        let mut c: usize = 0;
        while c < width
            invariant
                c <= width,
                width <= i32::MAX,
                base + width <= data.len(),
                all_samples(data@),
                sum == group_sum(data@, base as int, c as nat),
                -32768 * c <= sum <= 32767 * c,
            decreases width - c,
        {
            assert(is_sample(data@[base + c] as int));
            sum = sum + data[base + c] as i64;
            c += 1;
        }
        proof {
            lemma_average_is_sample(sum as int, width as int);
        }
        let average: i64 = if sum >= 0 {
            sum / (width as i64)
        } else {
            -((-sum) / (width as i64))
        };
        out.push(average as i32);
        i += 1;
        base += width;
    }
    assert(out@ =~= spec_downmix(data@, channels as int)) by {
        assert(data.len() as int / (channels as int) == groups) by (nonlinear_arith)
            requires
                groups * width == data.len(),
                width == channels,
                channels >= 1,
        ;
    }
    out
}

/// Mixing down distributes over the concatenation of two runs of whole
/// sample groups.
pub proof fn lemma_downmix_concat(a: Seq<i32>, b: Seq<i32>, channels: int)
    requires
        channels >= 1,
        a.len() % (channels as nat) == 0,
        b.len() % (channels as nat) == 0,
    ensures
        spec_downmix(a + b, channels) == spec_downmix(a, channels) + spec_downmix(b, channels),
{
    let na = a.len() as int / channels;
    let nb = b.len() as int / channels;
    assert(na * channels == a.len() && nb * channels == b.len() && (na + nb) * channels == a.len()
        + b.len() && ((a.len() + b.len()) as int) / channels == na + nb) by (nonlinear_arith)
        requires
            channels >= 1,
            na == a.len() as int / channels,
            nb == b.len() as int / channels,
            a.len() as int % channels == 0,
            b.len() as int % channels == 0,
    ;
    let whole = spec_downmix(a + b, channels);
    let parts = spec_downmix(a, channels) + spec_downmix(b, channels);
    assert(whole.len() == parts.len());
    assert forall|i: int| 0 <= i < whole.len() implies whole[i] == parts[i] by {
        if i < na {
            assert((i + 1) * channels <= na * channels && (i + 1) * channels == i * channels
                + channels && i * channels >= 0) by (nonlinear_arith)
                requires
                    0 <= i < na,
                    channels >= 1,
            ;
            assert((a + b).subrange(i * channels, i * channels + channels) =~= a.subrange(
                i * channels,
                i * channels + channels,
            ));
            lemma_group_sum_local(a + b, a, i * channels, i * channels, channels as nat);
        } else {
            let j = i - na;
            assert((j + 1) * channels <= nb * channels && (j + 1) * channels == j * channels
                + channels && j * channels >= 0 && i * channels == na * channels + j * channels)
                by (nonlinear_arith)
                requires
                    0 <= j < nb,
                    j == i - na,
                    channels >= 1,
            ;
            assert((a + b).subrange(i * channels, i * channels + channels) =~= b.subrange(
                j * channels,
                j * channels + channels,
            ));
            lemma_group_sum_local(a + b, b, i * channels, j * channels, channels as nat);
        }
    }
    assert(whole =~= parts);
}

/// Samples under a gain are canonical samples, as many as were delivered.
pub proof fn lemma_gained_samples(samples: SamplesView, gain: Gain)
    ensures
        spec_gained(samples, gain) matches Some(data) ==> all_samples(data) && data.len()
            == spec_len(samples),
{
    match spec_gained(samples, gain) {
        Some(data) => {
            assert forall|i: int| 0 <= i < data.len() implies is_sample(#[trigger] data[i] as int) by {
                let raw = spec_raw(samples, i)->0;
                lemma_cut_is_sample(
                    raw.mantissa * gain.significand(),
                    raw.power + gain.power() - 150,
                );
            }
        },
        None => {},
    }
}

/// Mixing canonical samples down gives canonical samples, one per group.
pub proof fn lemma_downmix_samples(data: Seq<i32>, channels: int)
    requires
        channels >= 1,
        data.len() as int % channels == 0,
        all_samples(data),
    ensures
        all_samples(spec_downmix(data, channels)),
        spec_downmix(data, channels).len() * channels == data.len(),
{
    let out = spec_downmix(data, channels);
    let groups = data.len() as int / channels;
    assert(groups * channels == data.len() && groups >= 0) by (nonlinear_arith)
        requires
            channels >= 1,
            groups == data.len() as int / channels,
            data.len() as int % channels == 0,
    ;
    assert forall|i: int| 0 <= i < out.len() implies is_sample(#[trigger] out[i] as int) by {
        assert((i + 1) * channels <= groups * channels && (i + 1) * channels == i * channels
            + channels && i * channels >= 0) by (nonlinear_arith)
            requires
                0 <= i < groups,
                channels >= 1,
        ;
        lemma_group_sum_bounds(data, i * channels, channels as nat);
        lemma_average_is_sample(
            group_sum(data, i * channels, channels as nat),
            channels,
        );
    }
}

/// Two runs of whole sample groups make a run of whole sample groups.
pub proof fn lemma_groups_concat(len_a: int, len_b: int, channels: int)
    requires
        channels >= 1,
        len_a >= 0,
        len_b >= 0,
        len_a % channels == 0,
        len_b % channels == 0,
    ensures
        (len_a + len_b) % channels == 0,
{
    let qa = len_a / channels;
    let qb = len_b / channels;
    vstd::arithmetic::div_mod::lemma_fundamental_div_mod(len_a, channels);
    vstd::arithmetic::div_mod::lemma_fundamental_div_mod(len_b, channels);
    vstd::arithmetic::mul::lemma_mul_is_distributive_add(channels, qa, qb);
    vstd::arithmetic::mul::lemma_mul_is_commutative(channels, qa + qb);
    vstd::arithmetic::div_mod::lemma_mod_multiples_basic(qa + qb, channels);
}

/// Two runs of samples in the same encoding, one after the other; `None`
/// where the encodings differ.
pub open spec fn spec_concat(a: SamplesView, b: SamplesView) -> Option<SamplesView> {
    match (a, b) {
        (SamplesView::Unsigned8(x), SamplesView::Unsigned8(y)) => Some(
            SamplesView::Unsigned8(x + y),
        ),
        (SamplesView::Signed16(x), SamplesView::Signed16(y)) => Some(SamplesView::Signed16(x + y)),
        (SamplesView::Signed32(x), SamplesView::Signed32(y)) => Some(SamplesView::Signed32(x + y)),
        (SamplesView::Float32(x), SamplesView::Float32(y)) => Some(SamplesView::Float32(x + y)),
        _ => None,
    }
}

/// What sample `i` of two runs one after the other delivers is what it
/// delivers in the run that it stands in.
pub proof fn lemma_raw_of_concat(a: SamplesView, b: SamplesView, i: int)
    requires
        spec_concat(a, b) is Some,
        0 <= i < spec_len(a) + spec_len(b),
    ensures
        spec_len(spec_concat(a, b)->0) == spec_len(a) + spec_len(b),
        spec_raw(spec_concat(a, b)->0, i) == if i < spec_len(a) {
            spec_raw(a, i)
        } else {
            spec_raw(b, i - spec_len(a))
        },
{
}

/// Where both of two runs in the same encoding decode, their concatenation
/// decodes to the concatenation of what they decode to; where one of them
/// does not, their concatenation does not.
pub proof fn lemma_gained_of_concat(a: SamplesView, b: SamplesView, gain: Gain)
    requires
        spec_concat(a, b) is Some,
    ensures
        match (spec_gained(a, gain), spec_gained(b, gain)) {
            (Some(p), Some(q)) => spec_gained(spec_concat(a, b)->0, gain) == Some(p + q),
            _ => spec_gained(spec_concat(a, b)->0, gain) is None,
        },
{
    let whole = spec_concat(a, b)->0;
    let n = spec_len(a) as int;
    if all_numbers(a) && all_numbers(b) {
        assert forall|i: int| 0 <= i < spec_len(whole) implies (#[trigger] spec_raw(whole, i))
            is Some by {
            lemma_raw_of_concat(a, b, i);
            if i < n {
                assert(spec_raw(a, i) is Some);
            } else {
                assert(spec_raw(b, i - n) is Some);
            }
        }
        let p = spec_gained(a, gain)->0;
        let q = spec_gained(b, gain)->0;
        let w = spec_gained(whole, gain)->0;
        assert(spec_len(whole) == spec_len(a) + spec_len(b));
        assert(w.len() == (p + q).len());
        assert forall|i: int| 0 <= i < w.len() implies w[i] == (p + q)[i] by {
            lemma_raw_of_concat(a, b, i);
        }
        assert(w =~= p + q);
    } else if !all_numbers(a) {
        let i = choose|i: int| 0 <= i < spec_len(a) && !((#[trigger] spec_raw(a, i)) is Some);
        lemma_raw_of_concat(a, b, i);
        assert(spec_raw(whole, i) is None);
    } else {
        let i = choose|i: int| 0 <= i < spec_len(b) && !((#[trigger] spec_raw(b, i)) is Some);
        lemma_raw_of_concat(a, b, n + i);
        assert(spec_raw(whole, n + i) is None);
    }
}

/// Whether the samples of `scaled` are those of `samples` times `gain`,
/// exactly: as many, each a number, and each the same number as the gain
/// times the sample at its place.
pub open spec fn scaled_by(samples: SamplesView, gain: Gain, scaled: SamplesView) -> bool {
    &&& spec_len(samples) == spec_len(scaled)
    &&& forall|i: int|
        0 <= i < spec_len(samples) ==> {
            &&& (#[trigger] spec_raw(samples, i)) matches Some(raw)
            &&& spec_raw(scaled, i) matches Some(product)
            &&& same_value(
                product.mantissa,
                product.power,
                raw.mantissa * gain.significand(),
                raw.power + gain.power() - 150,
            )
        }
}

/// The gain can be put into the samples: samples that are a gain times
/// others, exactly, are under the gain 1 what the others are under that
/// gain.
pub proof fn lemma_gain_in_samples(samples: SamplesView, gain: Gain, scaled: SamplesView)
    requires
        scaled_by(samples, gain, scaled),
    ensures
        spec_gained(samples, gain) is Some,
        spec_gained(scaled, Gain::spec_unity()) == spec_gained(samples, gain),
{
    assert forall|i: int| 0 <= i < spec_len(scaled) implies (#[trigger] spec_raw(scaled, i))
        is Some by {
        assert(spec_raw(samples, i) is Some);
    }
    let p = spec_gained(samples, gain)->0;
    let q = spec_gained(scaled, Gain::spec_unity())->0;
    assert forall|i: int| 0 <= i < p.len() implies p[i] == q[i] by {
        assert(spec_raw(samples, i) is Some);
        lemma_gain_in_sample(gain, spec_raw(samples, i)->0, spec_raw(scaled, i)->0);
    }
    assert(p =~= q);
}

} // verus!

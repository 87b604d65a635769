//! What holds of the engines whatever audio they are given: determinism,
//! independence of chunk boundaries, the behaviour of reset, and the round
//! trip of sensitivities.

use vstd::prelude::*;
use crate::audio::{
    lemma_downmix_concat, lemma_downmix_samples, lemma_gain_in_samples, lemma_gained_of_concat,
    lemma_gained_samples, scaled_by,
    lemma_groups_concat, spec_concat, spec_gained, AudioChunkView,
};
use crate::detect::{
    default_sensitivities, first_failing, fresh_scorers, lemma_feed_wf, lemma_first_fired,
    lemma_offset_le, lemma_push_wf, lemma_run_wf, model_fits, model_loads, same_setup,
    spec_persisted, DetectorView,
};
use crate::feature::{spec_features, spec_peak};
use crate::model::{flat, hotword_valid, lemma_offset_step, spec_offset, HotwordParamsView};
use crate::resource::Resource;
use crate::error::{lemma_merge_codes_monoid, spec_merge_codes, Detection, EngineError};
use crate::front::FrontView;
use crate::sample::{all_samples, Gain};
use crate::sensitivity::{is_sensitivity, spec_parse_list};
use crate::text::{lemma_join_split, split};
use crate::vad::{lemma_vad_feed_wf, lemma_vad_run_wf, spec_result_code, VadView};

verus! {

/// The detector after a series of calls, and what every call reported.
pub open spec fn detect_all(v: DetectorView, chunks: Seq<AudioChunkView>) -> (
    DetectorView,
    Seq<Result<Detection, EngineError>>,
)
    decreases chunks.len(),
{
    if chunks.len() == 0 {
        (v, Seq::empty())
    } else {
        let (before, results) = detect_all(v, chunks.drop_last());
        let (after, r) = before.spec_run_chunk(chunks.last());
        (after, results.push(r))
    }
}

/// A chunk that is accepted delivers canonical samples.
pub proof fn lemma_ingest_samples(front: FrontView, chunk: AudioChunkView)
    requires
        front.wf(),
    ensures
        front.spec_ingest(chunk) matches Ok(mono) ==> all_samples(mono),
{
    lemma_gained_samples(chunk.samples, front.gain);
    match front.spec_ingest(chunk) {
        Ok(mono) => {
            lemma_downmix_samples(spec_gained(chunk.samples, front.gain)->0, chunk.channels);
        },
        Err(_) => {},
    }
}

/// A call keeps the detector well formed and its setup, whether the chunk
/// is accepted or refused.
pub proof fn lemma_run_chunk_wf(v: DetectorView, chunk: AudioChunkView)
    requires
        v.wf(),
    ensures
        v.spec_run_chunk(chunk).0.wf(),
        same_setup(v.spec_run_chunk(chunk).0, v),
        v.spec_run_chunk(chunk).1 is Err ==> v.spec_run_chunk(chunk).0 == v,
{
    lemma_ingest_samples(v.front, chunk);
    match v.front.spec_ingest(chunk) {
        Ok(mono) => {
            lemma_run_wf(v, mono, chunk.is_end);
        },
        Err(_) => {},
    }
}

/// A series of calls keeps the detector well formed and its setup.
pub proof fn lemma_detect_all_wf(v: DetectorView, chunks: Seq<AudioChunkView>)
    requires
        v.wf(),
    ensures
        detect_all(v, chunks).0.wf(),
        same_setup(detect_all(v, chunks).0, v),
        detect_all(v, chunks).1.len() == chunks.len(),
    decreases chunks.len(),
{
    if chunks.len() > 0 {
        lemma_detect_all_wf(v, chunks.drop_last());
        lemma_run_chunk_wf(detect_all(v, chunks.drop_last()).0, chunks.last());
    }
}

/// A reset leaves a well-formed detector with the setup it had.
pub proof fn lemma_reset_wf(v: DetectorView)
    requires
        v.wf(),
    ensures
        v.spec_reset().wf(),
        same_setup(v.spec_reset(), v),
{
}

/// What a reset leaves depends on the setup alone: two detectors that
/// differ only in what they have heard are the same after a reset.
pub proof fn lemma_reset_forgets(a: DetectorView, b: DetectorView)
    requires
        a.wf(),
        b.wf(),
        same_setup(a, b),
    ensures
        a.spec_reset() == b.spec_reset(),
{
    assert(a.spec_reset().front.buffer == b.spec_reset().front.buffer);
    assert(a.spec_reset().front == b.spec_reset().front);
}

/// Two detectors with the same resource, models, gain,
/// frontend switch and sensitivities, each freshly reset, report the same
/// series of results for the same series of chunks.
pub proof fn lemma_determinism(a: DetectorView, b: DetectorView, chunks: Seq<AudioChunkView>)
    requires
        a.wf(),
        b.wf(),
        same_setup(a, b),
    ensures
        detect_all(a.spec_reset(), chunks).1 == detect_all(b.spec_reset(), chunks).1,
{
    lemma_reset_forgets(a, b);
}

/// A second reset right after the first changes nothing.
pub proof fn lemma_reset_idempotent(v: DetectorView)
    ensures
        v.spec_reset().spec_reset() == v.spec_reset(),
{
    assert(fresh_scorers(fresh_scorers(v.scorers.len()).len()) =~= fresh_scorers(v.scorers.len()));
    assert(v.spec_reset().spec_reset().front.buffer == v.spec_reset().front.buffer);
}

/// Whatever a freshly reset detector reported for a
/// series of chunks, it reports again for the same series after another
/// reset. What triggered once triggers again.
pub proof fn lemma_reset_replay(v: DetectorView, chunks: Seq<AudioChunkView>)
    requires
        v.wf(),
    ensures
        detect_all(detect_all(v.spec_reset(), chunks).0.spec_reset(), chunks).1 == detect_all(
            v.spec_reset(),
            chunks,
        ).1,
{
    lemma_reset_wf(v);
    lemma_detect_all_wf(v.spec_reset(), chunks);
    let heard = detect_all(v.spec_reset(), chunks).0;
    lemma_reset_forgets(heard, v);
}

/// Feeding two runs of mono samples one after the other leaves the
/// detector as feeding their concatenation does, and the codes of the two
/// runs merge into the code of the concatenation.
pub proof fn lemma_feed_concat(v: DetectorView, a: Seq<i32>, b: Seq<i32>)
    requires
        v.wf(),
        all_samples(a),
        all_samples(b),
    ensures
        v.spec_feed(a + b).0 == v.spec_feed(a).0.spec_feed(b).0,
        v.spec_feed(a + b).1 == spec_merge_codes(
            v.spec_feed(a).1,
            v.spec_feed(a).0.spec_feed(b).1,
        ),
    decreases b.len(),
{
    lemma_feed_wf(v, a);
    let mid = v.spec_feed(a).0;
    if b.len() == 0 {
        assert(a + b =~= a);
        lemma_merge_codes_monoid(v.spec_feed(a).1, -2, -2);
    } else {
        let head = b.drop_last();
        assert((a + b).drop_last() =~= a + head);
        assert((a + b).last() == b.last());
        assert(all_samples(head));
        lemma_feed_concat(v, a, head);
        lemma_merge_codes_monoid(
            v.spec_feed(a).1,
            mid.spec_feed(head).1,
            mid.spec_feed(head).0.spec_push(b.last()).1,
        );
    }
}

/// Chunk boundaries do not matter to the stream of mono samples: running a
/// detector on two runs, the first of them inside the utterance, leaves it
/// as running it on their concatenation does, and the two codes merge into
/// the code of the single call.
pub proof fn lemma_run_concat(v: DetectorView, a: Seq<i32>, b: Seq<i32>, is_end: bool)
    requires
        v.wf(),
        all_samples(a),
        all_samples(b),
    ensures
        v.spec_run(a + b, is_end).0 == v.spec_run(a, false).0.spec_run(b, is_end).0,
        v.spec_run(a + b, is_end).1 == spec_merge_codes(
            v.spec_run(a, false).1,
            v.spec_run(a, false).0.spec_run(b, is_end).1,
        ),
{
    lemma_feed_concat(v, a, b);
    lemma_feed_wf(v, a);
    let mid = v.spec_feed(a).0;
    lemma_feed_wf(mid, b);
    let fed = mid.spec_feed(b);
    lemma_merge_codes_monoid(v.spec_feed(a).1, -2, -2);
    lemma_merge_codes_monoid(v.spec_feed(a).1, fed.1, fed.0.spec_finish(is_end).1);
}

/// The runs of a list one after the other, as one run.
pub open spec fn joined(parts: Seq<Seq<i32>>) -> Seq<i32>
    decreases parts.len(),
{
    if parts.len() == 0 {
        Seq::empty()
    } else {
        parts[0] + joined(parts.drop_first())
    }
}

/// Whether every run of a list holds canonical samples only.
pub open spec fn all_parts_samples(parts: Seq<Seq<i32>>) -> bool {
    forall|k: int| 0 <= k < parts.len() ==> all_samples(#[trigger] parts[k])
}

/// The detector after one call per run of a list, all but the last inside
/// the utterance, and the merged code of the calls.
pub open spec fn run_parts(v: DetectorView, parts: Seq<Seq<i32>>, is_end: bool) -> (
    DetectorView,
    int,
)
    decreases parts.len(),
{
    if parts.len() == 0 {
        v.spec_run(Seq::empty(), is_end)
    } else if parts.len() == 1 {
        v.spec_run(parts[0], is_end)
    } else {
        let (mid, code) = v.spec_run(parts[0], false);
        let (done, rest) = run_parts(mid, parts.drop_first(), is_end);
        (done, spec_merge_codes(code, rest))
    }
}

/// However a stream of mono samples is cut into runs, one call per run,
/// with the end of the utterance marked on the last only, leaves the
/// detector as one call on the whole stream does, and the codes of the
/// calls merge into the code of the single call.
pub proof fn lemma_run_parts(v: DetectorView, parts: Seq<Seq<i32>>, is_end: bool)
    requires
        v.wf(),
        all_parts_samples(parts),
    ensures
        run_parts(v, parts, is_end) == v.spec_run(joined(parts), is_end),
        all_samples(joined(parts)),
    decreases parts.len(),
{
    if parts.len() == 0 {
    } else {
        let rest = parts.drop_first();
        assert(all_parts_samples(rest)) by {
            assert forall|k: int| 0 <= k < rest.len() implies all_samples(#[trigger] rest[k]) by {
                assert(rest[k] == parts[k + 1]);
            }
        }
        assert(all_samples(parts[0]));
        lemma_run_wf(v, parts[0], false);
        let mid = v.spec_run(parts[0], false).0;
        lemma_run_parts(mid, rest, is_end);
        assert(all_samples(joined(parts)));
        if parts.len() == 1 {
            assert(joined(rest) =~= Seq::<i32>::empty());
            assert(joined(parts) =~= parts[0]);
        } else {
            lemma_run_concat(v, parts[0], joined(rest), is_end);
        }
    }
}

/// The detection that a code stands for has that code, for the codes of
/// processed audio.
pub proof fn lemma_code_round_trip(code: int)
    requires
        code == -2 || 0 <= code <= i32::MAX,
    ensures
        Detection::spec_from_code(code) is Some,
        Detection::spec_from_code(code)->0.spec_code() == code,
{
}

/// Where a buffer is cut into two chunks that
/// the detector both accepts, the first of them inside the utterance,
/// feeding the two one after the other leaves the detector as feeding the
/// whole buffer does, and the two results merge into the result for the
/// whole: the lowest hotword index if any fired, else speech if either
/// held speech, else silence.
pub proof fn lemma_chunk_boundary_invariance(v: DetectorView, a: AudioChunkView, b: AudioChunkView)
    requires
        v.wf(),
        spec_concat(a.samples, b.samples) is Some,
        a.channels == b.channels,
        !a.is_end,
        v.spec_run_chunk(a).1 is Ok,
        v.spec_run_chunk(a).0.spec_run_chunk(b).1 is Ok,
    ensures
        ({
            let whole = v.spec_run_chunk(
                AudioChunkView {
                    samples: spec_concat(a.samples, b.samples)->0,
                    channels: a.channels,
                    is_end: b.is_end,
                },
            );
            let first = v.spec_run_chunk(a);
            let second = first.0.spec_run_chunk(b);
            &&& whole.0 == second.0
            &&& whole.1 matches Ok(d) && d.spec_code() == spec_merge_codes(
                first.1->Ok_0.spec_code(),
                second.1->Ok_0.spec_code(),
            )
        }),
{
    let first = v.spec_run_chunk(a);
    lemma_run_chunk_wf(v, a);
    let mid = first.0;
    lemma_ingest_samples(v.front, a);
    lemma_ingest_samples(mid.front, b);
    let mono_a = v.front.spec_ingest(a)->Ok_0;
    let mono_b = mid.front.spec_ingest(b)->Ok_0;
    let data_a = spec_gained(a.samples, v.front.gain)->0;
    let data_b = spec_gained(b.samples, v.front.gain)->0;
    lemma_gained_of_concat(a.samples, b.samples, v.front.gain);
    lemma_downmix_concat(data_a, data_b, a.channels);
    lemma_groups_concat(data_a.len() as int, data_b.len() as int, a.channels);
    lemma_run_concat(v, mono_a, mono_b, b.is_end);
    lemma_run_wf(v, mono_a, false);
    lemma_run_wf(mid, mono_b, b.is_end);
    lemma_run_wf(v, mono_a + mono_b, b.is_end);
    lemma_code_round_trip(v.spec_run(mono_a, false).1);
    lemma_code_round_trip(mid.spec_run(mono_b, b.is_end).1);
    lemma_code_round_trip(v.spec_run(mono_a + mono_b, b.is_end).1);
}

/// The chunks of a series as one chunk: their samples one after the other,
/// with the channel count and the end mark of the last; `None` for an empty
/// series and where the encodings differ.
pub open spec fn concat_all(chunks: Seq<AudioChunkView>) -> Option<AudioChunkView>
    decreases chunks.len(),
{
    if chunks.len() == 0 {
        None
    } else if chunks.len() == 1 {
        Some(chunks[0])
    } else {
        match concat_all(chunks.drop_last()) {
            None => None,
            Some(head) => match spec_concat(head.samples, chunks.last().samples) {
                None => None,
                Some(samples) => Some(
                    AudioChunkView {
                        samples,
                        channels: chunks.last().channels,
                        is_end: chunks.last().is_end,
                    },
                ),
            },
        }
    }
}

/// The codes of a series of results, merged.
pub open spec fn merge_all(results: Seq<Result<Detection, EngineError>>) -> int
    decreases results.len(),
{
    if results.len() == 0 {
        -2
    } else {
        spec_merge_codes(merge_all(results.drop_last()), spec_result_code(results.last()))
    }
}

/// One more result merges its code into the merged codes of those before.
pub proof fn lemma_merge_all_push(
    results: Seq<Result<Detection, EngineError>>,
    r: Result<Detection, EngineError>,
)
    ensures
        merge_all(results.push(r)) == spec_merge_codes(merge_all(results), spec_result_code(r)),
{
    assert(results.push(r).drop_last() =~= results);
    assert(results.push(r).last() == r);
}

/// Whether a series of chunks is one buffer cut into pieces that a detector
/// accepts: the pieces are in one encoding and one channel layout, each is
/// accepted, and none but the last marks the end of the utterance.
pub open spec fn cut_buffer(front: FrontView, chunks: Seq<AudioChunkView>) -> bool {
    &&& chunks.len() >= 1
    &&& concat_all(chunks) is Some
    &&& forall|k: int| 0 <= k < chunks.len() ==> front.spec_ingest(#[trigger] chunks[k]) is Ok
    &&& forall|k: int| 0 <= k < chunks.len() - 1 ==> !(#[trigger] chunks[k]).is_end
}

/// However a buffer is cut into chunks that the detector accepts, with the
/// end of the utterance marked on the last only, feeding the chunks one
/// after the other leaves the detector as feeding the whole buffer does, and
/// the results merge into the result for the whole: the lowest hotword
/// index if any fired, else speech if any chunk held speech, else silence.
pub proof fn lemma_chunks_invariance(v: DetectorView, chunks: Seq<AudioChunkView>)
    requires
        v.wf(),
        cut_buffer(v.front, chunks),
    ensures
        ({
            let whole = v.spec_run_chunk(concat_all(chunks)->0);
            let pieces = detect_all(v, chunks);
            &&& whole.0 == pieces.0
            &&& whole.1 matches Ok(d) && d.spec_code() == merge_all(pieces.1)
        }),
        concat_all(chunks)->0.channels == v.front.resource.format.num_channels,
    decreases chunks.len(),
{
    let last = chunks.last();
    let head_chunks = chunks.drop_last();
    assert(chunks[chunks.len() - 1] == last);
    assert(v.front.spec_ingest(last) is Ok);
    if chunks.len() == 1 {
        assert(head_chunks.len() == 0);
        lemma_run_chunk_wf(v, last);
        lemma_ingest_samples(v.front, last);
        lemma_run_wf(v, v.front.spec_ingest(last)->Ok_0, last.is_end);
        lemma_code_round_trip(v.spec_run(v.front.spec_ingest(last)->Ok_0, last.is_end).1);
        let r = v.spec_run_chunk(last).1;
        assert(detect_all(v, head_chunks).1 =~= Seq::empty());
        lemma_merge_all_push(Seq::empty(), r);
    } else {
        assert(cut_buffer(v.front, head_chunks)) by {
            assert forall|k: int| 0 <= k < head_chunks.len() implies v.front.spec_ingest(
                #[trigger] head_chunks[k],
            ) is Ok by {
                assert(head_chunks[k] == chunks[k]);
            }
            assert forall|k: int| 0 <= k < head_chunks.len() - 1 implies !(
            #[trigger] head_chunks[k]).is_end by {
                assert(head_chunks[k] == chunks[k]);
            }
        }
        lemma_chunks_invariance(v, head_chunks);
        let head = concat_all(head_chunks)->0;
        assert(head_chunks[head_chunks.len() - 1] == chunks[chunks.len() - 2]);
        assert(!head.is_end) by {
            if head_chunks.len() == 1 {
                assert(head == head_chunks[0]);
            }
        }
        lemma_detect_all_wf(v, head_chunks);
        let mid = detect_all(v, head_chunks).0;
        assert(mid.front.spec_ingest(last) == v.front.spec_ingest(last));
        lemma_chunk_boundary_invariance(v, head, last);
        let first = v.spec_run_chunk(head);
        let second = first.0.spec_run_chunk(last);
        lemma_merge_all_push(detect_all(v, head_chunks).1, second.1);
    }
}

/// Whether the score of the hotword at position `i` exceeds its threshold
/// at the start of a run of mono samples and after every sample of it.
pub open spec fn stays_high(v: DetectorView, samples: Seq<i32>, i: int) -> bool {
    forall|k: int|
        0 <= k <= samples.len() ==> (#[trigger] v.spec_feed(samples.take(k))).0.scorers[i].latched
}

/// Whether the score of the hotword at position `i` exceeds its threshold
/// neither at the start of a run of mono samples nor after any sample of it.
pub open spec fn stays_low(v: DetectorView, samples: Seq<i32>, i: int) -> bool {
    forall|k: int|
        0 <= k <= samples.len() ==> !(#[trigger] v.spec_feed(samples.take(k))).0.scorers[i].latched
}

/// A step reports a hotword only as its score comes to exceed its
/// threshold: the score did not exceed it before the step and does after.
pub proof fn lemma_step_reports_a_rise(
    v: DetectorView,
    front: FrontView,
    frame: Option<Seq<i32>>,
    i: int,
)
    requires
        0 <= i < v.scorers.len(),
        v.spec_step(front, frame).1 == i + 1,
    ensures
        !v.scorers[i].latched,
        v.spec_step(front, frame).0.scorers[i].latched,
{
    match frame {
        None => {},
        Some(f) => {
            let features = spec_features(f, front.resource.feature_dim as nat);
            let amplitude = spec_peak(f);
            lemma_first_fired(v.bank(), features, amplitude, v.scorers.len());
        },
    }
}

/// A step at which the score of a hotword comes to exceed its threshold
/// reports a hotword: that one, or one with a lower index that fired at
/// the same frame.
pub proof fn lemma_step_rise_is_reported(
    v: DetectorView,
    front: FrontView,
    frame: Option<Seq<i32>>,
    i: int,
)
    requires
        0 <= i < v.scorers.len(),
        !v.scorers[i].latched,
        v.spec_step(front, frame).0.scorers[i].latched,
    ensures
        1 <= v.spec_step(front, frame).1 <= i + 1,
{
    match frame {
        None => {},
        Some(f) => {
            let features = spec_features(f, front.resource.feature_dim as nat);
            let amplitude = spec_peak(f);
            lemma_first_fired(v.bank(), features, amplitude, v.scorers.len());
            assert(v.bank().spec_fires_at(features, amplitude, i));
        },
    }
}

/// One report per stretch of high score: a call during which the score of
/// a hotword exceeds its threshold from the start on does not report that
/// hotword, however long the stretch and however it is cut into calls. The
/// hotword was reported by the call in which its score rose.
pub proof fn lemma_no_report_while_high(v: DetectorView, samples: Seq<i32>, is_end: bool, i: int)
    requires
        v.wf(),
        all_samples(samples),
        0 <= i < v.scorers.len(),
        stays_high(v, samples, i),
    ensures
        v.spec_feed(samples).1 != i + 1,
        v.spec_run(samples, is_end).1 != i + 1,
    decreases samples.len(),
{
    lemma_feed_wf(v, samples);
    assert(samples.take(samples.len() as int) =~= samples);
    let fed = v.spec_feed(samples).0;
    assert(fed.scorers[i].latched);
    if samples.len() > 0 {
        let head = samples.drop_last();
        assert(head =~= samples.take(samples.len() - 1));
        assert(stays_high(v, head, i)) by {
            assert forall|k: int| 0 <= k <= head.len() implies (#[trigger] v.spec_feed(
                head.take(k),
            )).0.scorers[i].latched by {
                assert(head.take(k) =~= samples.take(k));
            }
        }
        lemma_no_report_while_high(v, head, false, i);
        lemma_feed_wf(v, head);
        let before = v.spec_feed(head).0;
        let (front, frame) = before.front.spec_push(samples.last());
        if before.spec_step(front, frame).1 == i + 1 {
            lemma_step_reports_a_rise(before, front, frame, i);
        }
    }
    if is_end {
        let (front, frame) = fed.front.spec_flush();
        if fed.spec_step(front, frame).1 == i + 1 {
            lemma_step_reports_a_rise(fed, front, frame, i);
        }
    }
}

/// A hotword whose score never comes to exceed its threshold is never
/// reported.
pub proof fn lemma_no_report_while_low(v: DetectorView, samples: Seq<i32>, is_end: bool, i: int)
    requires
        v.wf(),
        all_samples(samples),
        0 <= i < v.scorers.len(),
        stays_low(v, samples, i),
        !v.spec_run(samples, is_end).0.scorers[i].latched,
    ensures
        v.spec_feed(samples).1 != i + 1,
        v.spec_run(samples, is_end).1 != i + 1,
    decreases samples.len(),
{
    lemma_feed_wf(v, samples);
    assert(samples.take(samples.len() as int) =~= samples);
    let fed = v.spec_feed(samples).0;
    if samples.len() > 0 {
        let head = samples.drop_last();
        assert(head =~= samples.take(samples.len() - 1));
        assert(stays_low(v, head, i)) by {
            assert forall|k: int| 0 <= k <= head.len() implies !(#[trigger] v.spec_feed(
                head.take(k),
            )).0.scorers[i].latched by {
                assert(head.take(k) =~= samples.take(k));
            }
        }
        lemma_feed_wf(v, head);
        let before = v.spec_feed(head).0;
        assert(!before.scorers[i].latched);
        lemma_no_report_while_low(v, head, false, i);
        let (front, frame) = before.front.spec_push(samples.last());
        if before.spec_step(front, frame).1 == i + 1 {
            lemma_step_reports_a_rise(before, front, frame, i);
        }
    }
    if is_end {
        let (front, frame) = fed.front.spec_flush();
        if fed.spec_step(front, frame).1 == i + 1 {
            lemma_step_reports_a_rise(fed, front, frame, i);
        }
    }
}

/// A rise is reported: a call that begins with the score of a hotword at or
/// below its threshold, and during which the score comes to exceed it,
/// reports a hotword, that one or one with a lower index.
pub proof fn lemma_rise_is_reported(v: DetectorView, samples: Seq<i32>, k: int, i: int)
    requires
        v.wf(),
        all_samples(samples),
        0 <= i < v.scorers.len(),
        0 <= k <= samples.len(),
        !v.scorers[i].latched,
        v.spec_feed(samples.take(k)).0.scorers[i].latched,
    ensures
        1 <= v.spec_feed(samples).1 <= i + 1,
        1 <= v.spec_run(samples, false).1 <= i + 1,
    decreases samples.len(),
{
    lemma_feed_wf(v, samples);
    if samples.len() == 0 {
        assert(samples.take(k) =~= samples);
    } else {
        let head = samples.drop_last();
        lemma_feed_wf(v, head);
        let before = v.spec_feed(head).0;
        let (front, frame) = before.front.spec_push(samples.last());
        lemma_push_wf(before, samples.last());
        if k < samples.len() {
            assert(head.take(k) =~= samples.take(k));
            lemma_rise_is_reported(v, head, k, i);
        } else {
            assert(samples.take(k) =~= samples);
            if before.scorers[i].latched {
                assert(head.take(head.len() as int) =~= head);
                lemma_rise_is_reported(v, head, head.len() as int, i);
            } else {
                lemma_step_rise_is_reported(before, front, frame, i);
            }
        }
    }
}

/// The gain matters to what a chunk delivers and to nothing else: a sample
/// goes through a detector as it does under any other gain.
pub proof fn lemma_push_carries_gain(v: DetectorView, gain: Gain, x: i32)
    ensures
        v.spec_set_audio_gain(gain).spec_push(x) == (
            v.spec_push(x).0.spec_set_audio_gain(gain),
            v.spec_push(x).1,
        ),
{
    assert(v.spec_set_audio_gain(gain).bank() == v.bank());
}

/// A run of mono samples goes through a detector as it does under any
/// other gain.
pub proof fn lemma_run_carries_gain(v: DetectorView, gain: Gain, samples: Seq<i32>, is_end: bool)
    ensures
        v.spec_set_audio_gain(gain).spec_feed(samples) == (
            v.spec_feed(samples).0.spec_set_audio_gain(gain),
            v.spec_feed(samples).1,
        ),
        v.spec_set_audio_gain(gain).spec_run(samples, is_end) == (
            v.spec_run(samples, is_end).0.spec_set_audio_gain(gain),
            v.spec_run(samples, is_end).1,
        ),
    decreases samples.len(),
{
    if samples.len() > 0 {
        lemma_run_carries_gain(v, gain, samples.drop_last(), false);
        lemma_push_carries_gain(v.spec_feed(samples.drop_last()).0, gain, samples.last());
    }
    let fed = v.spec_feed(samples).0;
    assert(fed.spec_set_audio_gain(gain).bank() == fed.bank());
}

/// The gain multiplies what the caller delivers. A detector under a gain
/// that is fed a chunk, and a detector in the same state under the gain 1
/// that is fed the chunk whose samples are that gain times the samples of
/// the first, exactly, report the same, and are in the same state
/// afterwards but for the gain.
pub proof fn lemma_gain_multiplies_samples(
    v: DetectorView,
    gain: Gain,
    a: AudioChunkView,
    b: AudioChunkView,
)
    requires
        scaled_by(a.samples, gain, b.samples),
        a.channels == b.channels,
        a.is_end == b.is_end,
    ensures
        ({
            let under_gain = v.spec_set_audio_gain(gain).spec_run_chunk(a);
            let under_unity = v.spec_set_audio_gain(Gain::spec_unity()).spec_run_chunk(b);
            &&& under_gain.1 == under_unity.1
            &&& under_gain.0.spec_set_audio_gain(Gain::spec_unity()) == under_unity.0
        }),
{
    let unity = Gain::spec_unity();
    lemma_gain_in_samples(a.samples, gain, b.samples);
    let one = v.spec_set_audio_gain(gain);
    let other = v.spec_set_audio_gain(unity);
    assert(one.front.spec_ingest(a) == other.front.spec_ingest(b));
    match one.front.spec_ingest(a) {
        Ok(mono) => {
            lemma_run_carries_gain(v, gain, mono, a.is_end);
            lemma_run_carries_gain(v, unity, mono, a.is_end);
        },
        Err(_) => {},
    }
}

/// A sample goes through a voice-activity detector as it does under any
/// other gain.
pub proof fn lemma_vad_push_carries_gain(v: VadView, gain: Gain, x: i32)
    ensures
        v.spec_set_audio_gain(gain).spec_push(x) == (
            v.spec_push(x).0.spec_set_audio_gain(gain),
            v.spec_push(x).1,
        ),
{
}

/// A run of mono samples goes through a voice-activity detector as it does
/// under any other gain.
pub proof fn lemma_vad_run_carries_gain(v: VadView, gain: Gain, samples: Seq<i32>, is_end: bool)
    ensures
        v.spec_set_audio_gain(gain).spec_feed(samples) == (
            v.spec_feed(samples).0.spec_set_audio_gain(gain),
            v.spec_feed(samples).1,
        ),
        v.spec_set_audio_gain(gain).spec_run(samples, is_end) == (
            v.spec_run(samples, is_end).0.spec_set_audio_gain(gain),
            v.spec_run(samples, is_end).1,
        ),
    decreases samples.len(),
{
    if samples.len() > 0 {
        lemma_vad_run_carries_gain(v, gain, samples.drop_last(), false);
        lemma_vad_push_carries_gain(v.spec_feed(samples.drop_last()).0, gain, samples.last());
    }
}

/// The gain multiplies what the caller delivers, for the voice-activity
/// detector as for the hotword detector. A detector under a gain that is
/// fed a chunk, and a detector in the same state under the gain 1 that is
/// fed the chunk whose samples are that gain times the samples of the
/// first, exactly, report the same, and are in the same state afterwards
/// but for the gain.
pub proof fn lemma_vad_gain_multiplies_samples(
    v: VadView,
    gain: Gain,
    a: AudioChunkView,
    b: AudioChunkView,
)
    requires
        scaled_by(a.samples, gain, b.samples),
        a.channels == b.channels,
        a.is_end == b.is_end,
    ensures
        ({
            let under_gain = v.spec_set_audio_gain(gain).spec_run_chunk(a);
            let under_unity = v.spec_set_audio_gain(Gain::spec_unity()).spec_run_chunk(b);
            &&& under_gain.1 == under_unity.1
            &&& under_gain.0.spec_set_audio_gain(Gain::spec_unity()) == under_unity.0
        }),
{
    let unity = Gain::spec_unity();
    lemma_gain_in_samples(a.samples, gain, b.samples);
    let one = v.spec_set_audio_gain(gain);
    let other = v.spec_set_audio_gain(unity);
    assert(one.front.spec_ingest(a) == other.front.spec_ingest(b));
    match one.front.spec_ingest(a) {
        Ok(mono) => {
            lemma_vad_run_carries_gain(v, gain, mono, a.is_end);
            lemma_vad_run_carries_gain(v, unity, mono, a.is_end);
        },
        Err(_) => {},
    }
}

/// After a list of as many well-formed
/// sensitivities as there are hotwords has been set, reading the
/// sensitivities returns that very list.
pub proof fn lemma_sensitivity_round_trip(v: DetectorView, text: Seq<char>)
    requires
        spec_parse_list(text, v.hotwords().len()) is Ok,
    ensures
        v.spec_set_sensitivity(text).1 is Ok,
        v.spec_set_sensitivity(text).0.spec_get_sensitivity() == text,
{
    lemma_join_split(text, ',');
}

/// A list with another number of entries than
/// there are hotwords is refused as a count mismatch, and the detector
/// stays as it was, its sensitivities included.
pub proof fn lemma_sensitivity_arity(v: DetectorView, text: Seq<char>)
    requires
        split(text, ',').len() != v.hotwords().len(),
    ensures
        v.spec_set_sensitivity(text).1 == Err::<(), EngineError>(
            EngineError::SensitivityCountMismatch,
        ),
        v.spec_set_sensitivity(text).0 == v,
{
}

/// Setting sensitivities keeps the detector well formed and touches
/// nothing but the sensitivities.
pub proof fn lemma_set_sensitivity_wf(v: DetectorView, text: Seq<char>)
    requires
        v.wf(),
    ensures
        v.spec_set_sensitivity(text).0.wf(),
        v.spec_set_sensitivity(text).0 == (DetectorView {
            sensitivities: v.spec_set_sensitivity(text).0.sensitivities,
            ..v
        }),
{
}

/// Hotwords with other sensitivities, taken in index order from a list.
pub open spec fn with_sensitivities(
    hotwords: Seq<HotwordParamsView>,
    sensitivities: Seq<Seq<char>>,
) -> Seq<HotwordParamsView> {
    Seq::new(
        hotwords.len(),
        |i: int| HotwordParamsView { sensitivity: sensitivities[i], ..hotwords[i] },
    )
}

/// The models as written back, up to a file, are the models up to that
/// file as written back.
proof fn lemma_persisted_prefix(
    models: Seq<Seq<HotwordParamsView>>,
    sensitivities: Seq<Seq<char>>,
    k: int,
)
    requires
        0 <= k <= models.len(),
    ensures
        spec_persisted(models, sensitivities).take(k) == spec_persisted(
            models.take(k),
            sensitivities,
        ),
{
    let whole = spec_persisted(models, sensitivities).take(k);
    let part = spec_persisted(models.take(k), sensitivities);
    assert(whole.len() == part.len());
    assert forall|m: int| 0 <= m < k implies whole[m] == part[m] by {
        assert(models.take(k).take(m) =~= models.take(m));
        assert(whole[m] =~= part[m]);
    }
    assert(whole =~= part);
}

/// The hotwords of the models as written back are the hotwords of the
/// models, in the same order, each with the sensitivity of its index.
pub proof fn lemma_persisted_hotwords(
    models: Seq<Seq<HotwordParamsView>>,
    sensitivities: Seq<Seq<char>>,
)
    ensures
        flat(spec_persisted(models, sensitivities)) == with_sensitivities(
            flat(models),
            sensitivities,
        ),
    decreases models.len(),
{
    let written = spec_persisted(models, sensitivities);
    if models.len() == 0 {
        assert(flat(written) =~= with_sensitivities(flat(models), sensitivities));
    } else {
        let n = models.len() - 1;
        let head = models.drop_last();
        lemma_persisted_hotwords(head, sensitivities);
        lemma_persisted_prefix(models, sensitivities, n);
        assert(models.take(n) =~= head);
        assert(written.drop_last() =~= written.take(n));
        assert(written.last() == written[n]);
        assert(spec_offset(models, n) == flat(head).len());
        assert(flat(written) =~= with_sensitivities(flat(models), sensitivities));
    }
}

/// What is written back loads again: the models that a detector hands out
/// for writing make, with the resource of the detector, a detector with the
/// same hotwords in the same order and with the sensitivities that the
/// first detector held when it handed them out.
pub proof fn lemma_persist_reload(v: DetectorView)
    requires
        v.wf(),
    ensures
        DetectorView::spec_load(v.front.resource, spec_persisted(v.models, v.sensitivities))
            matches Ok(w) && w.sensitivities == v.sensitivities && w.hotwords()
            == with_sensitivities(v.hotwords(), v.sensitivities),
{
    let resource = v.front.resource;
    let written = spec_persisted(v.models, v.sensitivities);
    lemma_persisted_hotwords(v.models, v.sensitivities);
    lemma_written_loads(resource, v, v.models.len());
    assert(default_sensitivities(flat(written)) =~= v.sensitivities);
    if v.models.len() == 0 {
        assert(flat(v.models).len() == 0);
    }
}

/// None of the first `n` models that a detector hands out for writing
/// fails to load.
proof fn lemma_written_loads(resource: Resource, v: DetectorView, n: nat)
    requires
        v.wf(),
        resource == v.front.resource,
        n <= v.models.len(),
    ensures
        first_failing(resource, spec_persisted(v.models, v.sensitivities), n) is None,
    decreases n,
{
    if n > 0 {
        lemma_written_loads(resource, v, (n - 1) as nat);
        let k = n - 1;
        let written = spec_persisted(v.models, v.sensitivities);
        lemma_offset_step(v.models, k);
        lemma_offset_le(v.models, k + 1);
        lemma_persisted_prefix(v.models, v.sensitivities, k + 1);
        lemma_persisted_hotwords(v.models.take(k + 1), v.sensitivities);
        assert(model_fits(resource, v.models[k]));
        assert forall|j: int| 0 <= j < written[k].len() implies hotword_valid(
            resource,
            #[trigger] written[k][j],
        ) by {
            assert(v.models[k][j].weights.len() == resource.feature_dim);
            assert(is_sensitivity(v.sensitivities[spec_offset(v.models, k) + j]));
        }
        assert(model_loads(resource, written, k));
    }
}

/// The voice-activity detector after a run of mono samples fed in two
/// parts is as after the whole run, and the two codes merge into the code
/// of the whole.
pub proof fn lemma_vad_feed_concat(v: VadView, a: Seq<i32>, b: Seq<i32>)
    requires
        v.wf(),
        all_samples(a),
        all_samples(b),
    ensures
        v.spec_feed(a + b).0 == v.spec_feed(a).0.spec_feed(b).0,
        v.spec_feed(a + b).1 == spec_merge_codes(
            v.spec_feed(a).1,
            v.spec_feed(a).0.spec_feed(b).1,
        ),
    decreases b.len(),
{
    lemma_vad_feed_wf(v, a);
    let mid = v.spec_feed(a).0;
    if b.len() == 0 {
        assert(a + b =~= a);
    } else {
        let head = b.drop_last();
        assert((a + b).drop_last() =~= a + head);
        assert((a + b).last() == b.last());
        assert(all_samples(head));
        lemma_vad_feed_concat(v, a, head);
        lemma_merge_codes_monoid(
            v.spec_feed(a).1,
            mid.spec_feed(head).1,
            mid.spec_feed(head).0.spec_push(b.last()).1,
        );
    }
}

/// Where a buffer of a voice-activity detector is cut into two chunks that
/// the detector both accepts, the first
/// of them inside the utterance, feeding the two one after the other
/// leaves the detector as feeding the whole buffer does, and the whole
/// held speech exactly if one of the two did.
pub proof fn lemma_vad_chunk_boundary_invariance(v: VadView, a: AudioChunkView, b: AudioChunkView)
    requires
        v.wf(),
        spec_concat(a.samples, b.samples) is Some,
        a.channels == b.channels,
        !a.is_end,
        v.spec_run_chunk(a).1 is Ok,
        v.spec_run_chunk(a).0.spec_run_chunk(b).1 is Ok,
    ensures
        ({
            let whole = v.spec_run_chunk(
                AudioChunkView {
                    samples: spec_concat(a.samples, b.samples)->0,
                    channels: a.channels,
                    is_end: b.is_end,
                },
            );
            let first = v.spec_run_chunk(a);
            let second = first.0.spec_run_chunk(b);
            &&& whole.0 == second.0
            &&& whole.1 matches Ok(d) && d.spec_code() == spec_merge_codes(
                first.1->Ok_0.spec_code(),
                second.1->Ok_0.spec_code(),
            )
        }),
{
    let first = v.spec_run_chunk(a);
    lemma_ingest_samples(v.front, a);
    let mono_a = v.front.spec_ingest(a)->Ok_0;
    lemma_vad_run_wf(v, mono_a, false);
    let mid = first.0;
    lemma_ingest_samples(mid.front, b);
    let mono_b = mid.front.spec_ingest(b)->Ok_0;
    let data_a = spec_gained(a.samples, v.front.gain)->0;
    let data_b = spec_gained(b.samples, v.front.gain)->0;
    lemma_gained_of_concat(a.samples, b.samples, v.front.gain);
    lemma_downmix_concat(data_a, data_b, a.channels);
    lemma_groups_concat(data_a.len() as int, data_b.len() as int, a.channels);
    lemma_vad_feed_concat(v, mono_a, mono_b);
    lemma_vad_feed_wf(v, mono_a);
    lemma_vad_feed_wf(v.spec_feed(mono_a).0, mono_b);
    lemma_vad_run_wf(mid, mono_b, b.is_end);
    lemma_vad_run_wf(v, mono_a + mono_b, b.is_end);
    let fed = v.spec_feed(mono_a).0.spec_feed(mono_b);
    lemma_merge_codes_monoid(v.spec_feed(mono_a).1, fed.1, fed.0.spec_finish(b.is_end).1);
}

/// A second reset of a voice-activity detector right after the first
/// changes nothing.
pub proof fn lemma_vad_reset_idempotent(v: VadView)
    ensures
        v.spec_reset().spec_reset() == v.spec_reset(),
{
    assert(v.spec_reset().spec_reset().front.buffer == v.spec_reset().front.buffer);
}

/// What a reset of the voice-activity detector leaves depends on the
/// resource, the gain and the frontend switch alone.
pub proof fn lemma_vad_reset_forgets(a: VadView, b: VadView)
    requires
        a.wf(),
        b.wf(),
        a.front.resource == b.front.resource,
        a.front.gain == b.front.gain,
        a.front.frontend == b.front.frontend,
    ensures
        a.spec_reset() == b.spec_reset(),
{
    assert(a.spec_reset().front.buffer == b.spec_reset().front.buffer);
    assert(a.spec_reset().front == b.spec_reset().front);
}

/// Switching the frontend of a
/// voice-activity detector on or off leaves the audio format that it
/// reports, and everything else but the switch, as it was; and the format
/// stays the same through every later call.
pub proof fn lemma_vad_frontend_keeps_format(v: VadView, on: bool, chunk: AudioChunkView)
    requires
        v.wf(),
    ensures
        v.spec_apply_frontend(on).front.resource == v.front.resource,
        v.spec_apply_frontend(on).front.gain == v.front.gain,
        v.spec_apply_frontend(on).front.buffer == v.front.buffer,
        v.spec_apply_frontend(on).front.agc == v.front.agc,
        v.spec_apply_frontend(on).vad == v.vad,
        v.spec_apply_frontend(on).front.frontend == on,
        v.spec_apply_frontend(on).wf(),
        v.spec_apply_frontend(on).spec_run_chunk(chunk).0.front.resource == v.front.resource,
{
    let w = v.spec_apply_frontend(on);
    lemma_ingest_samples(w.front, chunk);
    match w.front.spec_ingest(chunk) {
        Ok(mono) => {
            lemma_vad_run_wf(w, mono, chunk.is_end);
        },
        Err(_) => {},
    }
}

} // verus!

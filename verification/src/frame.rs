//! The frame buffer: cuts a continuous stream of mono samples into analysis
//! frames of a fixed length that start a fixed hop apart.
//!
//! Samples that do not fill a frame yet are carried over to the next call, so
//! that the frames depend on the stream alone and not on how it was chunked.

use vstd::prelude::*;
use crate::sample::{all_samples, is_sample};

verus! {

/// Longest analysis frame that a buffer accepts, in samples.
pub const MAX_FRAME_LEN: usize = 65536;

/// The mathematical value of a [`FrameBuffer`].
pub struct FrameBufferView {
    /// Length of every frame, in samples.
    pub frame_len: nat,
    /// Distance between the starts of two successive frames, in samples.
    pub hop: nat,
    /// The samples carried over: the start of the next frame.
    pub pending: Seq<i32>,
    /// How many of the carried samples have not been part of any frame yet.
    pub fresh: nat,
}

/// A run of `n` zero samples.
pub open spec fn zeros(n: nat) -> Seq<i32> {
    Seq::new(n, |i: int| 0i32)
}

impl FrameBufferView {
    /// Whether the value is one that a buffer can hold.
    pub open spec fn wf(self) -> bool {
        &&& 1 <= self.hop <= self.frame_len <= MAX_FRAME_LEN
        &&& self.pending.len() < self.frame_len
        &&& self.fresh <= self.pending.len()
        &&& all_samples(self.pending)
    }

    /// The buffer with nothing carried over.
    pub open spec fn cleared(self) -> FrameBufferView {
        FrameBufferView { pending: Seq::empty(), fresh: 0, ..self }
    }

    /// The buffer after one more sample, and the frame that the sample
    /// completed, if it completed one.
    pub open spec fn push(self, x: i32) -> (FrameBufferView, Option<Seq<i32>>) {
        let grown = self.pending.push(x);
        if grown.len() == self.frame_len {
            (
                FrameBufferView { pending: grown.skip(self.hop as int), fresh: 0, ..self },
                Some(grown),
            )
        } else {
            (FrameBufferView { pending: grown, fresh: self.fresh + 1, ..self }, None)
        }
    }

    /// The buffer at the end of an utterance, and the last frame: what was
    /// carried over, filled up with zeros, if it holds a sample that no frame
    /// has covered yet.
    pub open spec fn flush(self) -> (FrameBufferView, Option<Seq<i32>>) {
        if self.fresh > 0 {
            (
                self.cleared(),
                Some(self.pending + zeros((self.frame_len - self.pending.len()) as nat)),
            )
        } else {
            (self.cleared(), None)
        }
    }

    /// The buffer after a run of samples.
    pub open spec fn after(self, samples: Seq<i32>) -> FrameBufferView
        decreases samples.len(),
    {
        if samples.len() == 0 {
            self
        } else {
            self.after(samples.drop_last()).push(samples.last()).0
        }
    }

    /// The frames that a run of samples completes, in order.
    pub open spec fn frames(self, samples: Seq<i32>) -> Seq<Seq<i32>>
        decreases samples.len(),
    {
        if samples.len() == 0 {
            Seq::empty()
        } else {
            let before = self.frames(samples.drop_last());
            match self.after(samples.drop_last()).push(samples.last()).1 {
                Some(frame) => before.push(frame),
                None => before,
            }
        }
    }
}

/// The mathematical value of a frame that may be there or not.
pub open spec fn frame_view(frame: Option<Vec<i32>>) -> Option<Seq<i32>> {
    match frame {
        Some(f) => Some(f@),
        None => None,
    }
}

/// The number of whole frames in a stream of `len` samples.
pub open spec fn frame_count(len: nat, frame_len: nat, hop: nat) -> nat {
    if len < frame_len {
        0
    } else {
        ((len - frame_len) / (hop as int) + 1) as nat
    }
}

/// Pushing a sample keeps a buffer well formed, and a completed frame has
/// the frame length and holds samples only.
pub proof fn lemma_push_wf(v: FrameBufferView, x: i32)
    requires
        v.wf(),
        is_sample(x as int),
    ensures
        v.push(x).0.wf(),
        v.push(x).0.frame_len == v.frame_len,
        v.push(x).0.hop == v.hop,
        v.push(x).1 matches Some(frame) ==> frame.len() == v.frame_len && all_samples(frame),
{
    let grown = v.pending.push(x);
    assert(all_samples(grown));
    if grown.len() == v.frame_len {
        let rest = grown.skip(v.hop as int);
        assert forall|i: int| 0 <= i < rest.len() implies is_sample(#[trigger] rest[i] as int) by {
            assert(rest[i] == grown[i + v.hop]);
        }
    }
}

/// Flushing leaves an empty, well-formed buffer, and the last frame has the
/// frame length and holds samples only.
pub proof fn lemma_flush_wf(v: FrameBufferView)
    requires
        v.wf(),
    ensures
        v.flush().0.wf(),
        v.flush().0 == v.cleared(),
        v.flush().1 matches Some(frame) ==> frame.len() == v.frame_len && all_samples(frame),
{
    let padded = v.pending + zeros((v.frame_len - v.pending.len()) as nat);
    assert(all_samples(padded));
}

/// A run of samples keeps a buffer well formed.
pub proof fn lemma_after_wf(v: FrameBufferView, samples: Seq<i32>)
    requires
        v.wf(),
        all_samples(samples),
    ensures
        v.after(samples).wf(),
        v.after(samples).frame_len == v.frame_len,
        v.after(samples).hop == v.hop,
    decreases samples.len(),
{
    if samples.len() > 0 {
        lemma_after_wf(v, samples.drop_last());
        lemma_push_wf(v.after(samples.drop_last()), samples.last());
    }
}

/// Chunking does not matter: feeding two runs one after the other leaves the
/// buffer as feeding their concatenation does, and completes the same frames.
pub proof fn lemma_frames_concat(v: FrameBufferView, a: Seq<i32>, b: Seq<i32>)
    ensures
        v.after(a + b) == v.after(a).after(b),
        v.frames(a + b) == v.frames(a) + v.after(a).frames(b),
    decreases b.len(),
{
    if b.len() == 0 {
        assert(a + b =~= a);
        assert(v.frames(a) + v.after(a).frames(b) =~= v.frames(a));
    } else {
        assert((a + b).drop_last() =~= a + b.drop_last());
        assert((a + b).last() == b.last());
        lemma_frames_concat(v, a, b.drop_last());
        let mid = v.after(a);
        match mid.after(b.drop_last()).push(b.last()).1 {
            Some(frame) => {
                assert(v.frames(a + b) =~= v.frames(a) + mid.frames(b));
            },
            None => {},
        }
    }
}

/// From an empty buffer, the frames of a stream are its windows: frame `k`
/// is the `frame_len` samples that start at `k * hop`, and what is carried
/// over is the stream from the start of the next window on.
pub proof fn lemma_frames_are_windows(v: FrameBufferView, samples: Seq<i32>)
    requires
        v.wf(),
        v.pending.len() == 0,
    ensures
        v.frames(samples).len() == frame_count(samples.len(), v.frame_len, v.hop),
        forall|k: int|
            0 <= k < v.frames(samples).len() ==> #[trigger] v.frames(samples)[k]
                == samples.subrange(k * v.hop, k * v.hop + v.frame_len),
        v.after(samples).pending == samples.skip(
            (frame_count(samples.len(), v.frame_len, v.hop) * v.hop) as int,
        ),
        v.after(samples).frame_len == v.frame_len,
        v.after(samples).hop == v.hop,
    decreases samples.len(),
{
    let n = samples.len();
    let f = v.frame_len;
    let h = v.hop;
    if n == 0 {
        assert(v.after(samples).pending =~= samples.skip(0));
    } else {
        let prev = samples.drop_last();
        lemma_frames_are_windows(v, prev);
        let c = frame_count(prev.len(), f, h);
        let mid = v.after(prev);
        let grown = mid.pending.push(samples.last());
        assert(mid.pending == prev.skip((c * h) as int));
        lemma_frame_count_step(n, f, h);
        assert(c * h <= prev.len() && (c + 1) * h == c * h + h) by (nonlinear_arith)
            requires
                c == frame_count(prev.len(), f, h),
                prev.len() == n - 1,
                1 <= h <= f,
        {
            if prev.len() >= f {
                assert(((prev.len() - f) / (h as int)) * h <= prev.len() - f);
            }
        }
        assert(grown =~= samples.skip((c * h) as int));
        if grown.len() == f {
            assert(frame_count(n, f, h) == c + 1);
            assert(grown =~= samples.subrange((c * h) as int, (c * h + f) as int));
            assert(grown.skip(h as int) =~= samples.skip(((c + 1) * h) as int));
            assert forall|k: int| 0 <= k < v.frames(samples).len() implies #[trigger] v.frames(
                samples,
            )[k] == samples.subrange(k * h, k * h + f) by {
                if k < c {
                    assert(k * h + f <= prev.len()) by (nonlinear_arith)
                        requires
                            0 <= k < c,
                            c * h + f == n,
                            prev.len() == n - 1,
                            h >= 1,
                    ;
                    assert(k * h >= 0) by (nonlinear_arith)
                        requires
                            k >= 0,
                            h >= 1,
                    ;
                    assert(prev.subrange(k * h, k * h + f) =~= samples.subrange(k * h, k * h + f));
                }
            }
        } else {
            assert(frame_count(n, f, h) == c);
            assert forall|k: int| 0 <= k < v.frames(samples).len() implies #[trigger] v.frames(
                samples,
            )[k] == samples.subrange(k * h, k * h + f) by {
                assert(k * h + f <= prev.len() && k * h >= 0) by (nonlinear_arith)
                    requires
                        0 <= k < c,
                        c == frame_count(prev.len(), f, h),
                        1 <= h <= f,
                {
                    assert(prev.len() >= f);
                    assert(((prev.len() - f) / (h as int)) * h <= prev.len() - f);
                }
                assert(prev.subrange(k * h, k * h + f) =~= samples.subrange(k * h, k * h + f));
            }
        }
    }
}

/// How the number of whole frames grows with one more sample: by one exactly
/// when the sample completes a window.
pub proof fn lemma_frame_count_step(n: nat, f: nat, h: nat)
    requires
        n >= 1,
        1 <= h <= f,
    ensures
        ({
            let c = frame_count((n - 1) as nat, f, h);
            &&& c * h <= n - 1
            &&& n - c * h <= f
            &&& frame_count(n, f, h) == if n - c * h == f { c + 1 } else { c }
        }),
{
    let c = frame_count((n - 1) as nat, f, h);
    if n - 1 < f {
        assert(c == 0);
        assert(c * h == 0);
        if n == f {
            assert(((n - f) as int) / (h as int) == 0);
        }
    } else {
        let m = (n - 1 - f) as int;
        let q = m / (h as int);
        let r = m % (h as int);
        assert(m == q * h + r && 0 <= r < h && q >= 0) by (nonlinear_arith)
            requires
                m >= 0,
                h >= 1,
                q == m / (h as int),
                r == m % (h as int),
        ;
        assert(c == q + 1);
        assert(c * h == q * h + h) by (nonlinear_arith)
            requires
                c == q + 1,
        ;
        // n - c*h == f + 1 + r - h
        if r == h - 1 {
            assert((m + 1) / (h as int) == q + 1) by (nonlinear_arith)
                requires
                    m == q * h + r,
                    r == h - 1,
                    h >= 1,
                    q >= 0,
            ;
        } else {
            assert((m + 1) / (h as int) == q) by (nonlinear_arith)
                requires
                    m == q * h + r,
                    0 <= r < h - 1,
                    h >= 1,
                    q >= 0,
            ;
        }
    }
}

/// Cuts a stream of mono samples into overlapping frames.
///
/// A frame is handed out as a vector of its own. A caller that hands the
/// vector back once it is done with it, see [`FrameBuffer::recycle`], keeps
/// the buffer from allocating while it runs.
#[derive(Debug)]
pub struct FrameBuffer {
    frame_len: usize,
    hop: usize,
    pending: Vec<i32>,
    fresh: usize,
    spare: Vec<i32>,
}

impl View for FrameBuffer {
    type V = FrameBufferView;

    closed spec fn view(&self) -> FrameBufferView {
        FrameBufferView {
            frame_len: self.frame_len as nat,
            hop: self.hop as nat,
            pending: self.pending@,
            fresh: self.fresh as nat,
        }
    }
}

impl FrameBuffer {
    /// Creates an empty buffer for frames of `frame_len` samples that start
    /// `hop` samples apart.
    pub fn new(frame_len: usize, hop: usize) -> (buffer: FrameBuffer)
        requires
            1 <= hop <= frame_len <= MAX_FRAME_LEN,
        ensures
            buffer@.wf(),
            buffer@ == (FrameBufferView {
                frame_len: frame_len as nat,
                hop: hop as nat,
                pending: Seq::empty(),
                fresh: 0,
            }),
    {
        FrameBuffer {
            frame_len,
            hop,
            pending: Vec::with_capacity(frame_len),
            fresh: 0,
            spare: Vec::with_capacity(frame_len),
        }
    }

    /// Returns the length of every frame.
    pub fn frame_len(&self) -> (n: usize)
        ensures
            n == self@.frame_len,
    {
        self.frame_len
    }

    /// Returns the distance between the starts of two successive frames.
    pub fn hop(&self) -> (n: usize)
        ensures
            n == self@.hop,
    {
        self.hop
    }

    /// Returns the number of samples carried over.
    pub fn pending_len(&self) -> (n: usize)
        ensures
            n == self@.pending.len(),
    {
        self.pending.len()
    }

    /// Moves the spare vector out, leaving one without storage behind.
    fn take_spare(&mut self) -> (out: Vec<i32>)
        ensures
            final(self)@ == old(self)@,
            out@ == old(self).spare@,
    {
        let mut out: Vec<i32> = Vec::new();
        core::mem::swap(&mut self.spare, &mut out);
        out
    }

    /// Takes one more sample and returns the frame that it completed, if any.
    pub fn push(&mut self, x: i32) -> (frame: Option<Vec<i32>>)
        requires
            old(self)@.wf(),
            is_sample(x as int),
        ensures
            final(self)@.wf(),
            final(self)@ == old(self)@.push(x).0,
            match frame {
                Some(f) => old(self)@.push(x).1 == Some(f@) && f@.len() == old(self)@.frame_len
                    && all_samples(f@),
                None => old(self)@.push(x).1 is None,
            },
    {
        proof {
            lemma_push_wf(self@, x);
        }
        self.pending.push(x);
        if self.pending.len() == self.frame_len {
            self.spare.clear();
            let mut i: usize = self.hop;
            while i < self.frame_len
                invariant
                    self.hop <= i <= self.frame_len,
                    self.pending.len() == self.frame_len,
                    self.pending@ == old(self).pending@.push(x),
                    self.frame_len == old(self).frame_len,
                    self.hop == old(self).hop,
                    self.spare@ == self.pending@.subrange(self.hop as int, i as int),
                decreases self.frame_len - i,
            {
                self.spare.push(self.pending[i]);
                assert(self.pending@.subrange(self.hop as int, i as int).push(
                    self.pending@[i as int],
                ) =~= self.pending@.subrange(self.hop as int, i + 1));
                i += 1;
            }
            assert(self.spare@ =~= self.pending@.skip(self.hop as int));
            core::mem::swap(&mut self.pending, &mut self.spare);
            self.fresh = 0;
            Some(self.take_spare())
        } else {
            self.fresh = self.fresh + 1;
            None
        }
    }

    /// Ends the utterance: returns what was carried over as a last frame,
    /// filled up with zeros, if it holds a sample that no frame has covered
    /// yet, and empties the buffer.
    pub fn flush(&mut self) -> (frame: Option<Vec<i32>>)
        requires
            old(self)@.wf(),
        ensures
            final(self)@.wf(),
            final(self)@ == old(self)@.flush().0,
            match frame {
                Some(f) => old(self)@.flush().1 == Some(f@) && f@.len() == old(self)@.frame_len
                    && all_samples(f@),
                None => old(self)@.flush().1 is None,
            },
    {
        proof {
            lemma_flush_wf(self@);
        }
        if self.fresh > 0 {
            self.spare.clear();
            core::mem::swap(&mut self.pending, &mut self.spare);
            let mut frame: Vec<i32> = self.take_spare();
            let ghost carried = frame@;
            while frame.len() < self.frame_len
                invariant
                    frame.len() <= self.frame_len,
                    carried.len() <= frame.len(),
                    frame@ == carried + zeros((frame.len() - carried.len()) as nat),
                decreases self.frame_len - frame.len(),
            {
                frame.push(0);
                assert(frame@ =~= carried + zeros((frame.len() - carried.len()) as nat));
            }
            self.fresh = 0;
            assert(self.pending@ =~= Seq::<i32>::empty());
            Some(frame)
        } else {
            self.pending.clear();
            assert(self.pending@ =~= Seq::<i32>::empty());
            None
        }
    }

    /// Takes back a vector that held a frame, to hold a later one: the
    /// vector becomes the reserve of the buffer, in place of the one that
    /// it had. The value of the buffer is as it was.
    pub fn recycle(&mut self, used: Vec<i32>)
        ensures
            final(self)@ == old(self)@,
            final(self).reserve() == used,
    {
        self.spare = used;
    }

    /// The vector that the buffer keeps in reserve, to build the next frame
    /// in. What it holds is of no account: it is emptied before it is used.
    pub closed spec fn reserve(&self) -> Vec<i32> {
        self.spare
    }

    /// Empties the buffer.
    pub fn clear(&mut self)
        requires
            old(self)@.wf(),
        ensures
            final(self)@.wf(),
            final(self)@ == old(self)@.cleared(),
    {
        self.pending.clear();
        self.fresh = 0;
        assert(self.pending@ =~= Seq::<i32>::empty());
    }
}

} // verus!

//! Interleaved frame buffers with absolute frame addressing.
//!
//! The streaming stretchers keep pending input, an overlap-add accumulator and
//! finalized output. All three are sequences of interleaved samples in which one
//! frame is `channels` consecutive samples; the input buffer and the accumulator
//! also know the absolute frame number of their first frame, so a stretcher can
//! address the stream by frame while the buffers slide forward.
use vstd::prelude::*;
use std::collections::VecDeque;
use vstd::arithmetic::div_mod::lemma_fundamental_div_mod_converse;

verus! {

// ---------------------------------------------------------------------------
// Arithmetic on interleaved lengths
// ---------------------------------------------------------------------------
/// `n` whole frames of `ch` channels fit in `len` samples exactly when `n <= len / ch`.
pub proof fn lemma_whole_frames(len: int, ch: int)
    requires
        len >= 0,
        ch > 0,
    ensures
        0 <= (len / ch) * ch <= len,
        len % ch == 0 ==> (len / ch) * ch == len,
        len / ch >= 0,
{
    vstd::arithmetic::div_mod::lemma_fundamental_div_mod(len, ch);
    vstd::arithmetic::mul::lemma_mul_is_commutative(ch, len / ch);
    vstd::arithmetic::div_mod::lemma_div_pos_is_pos(len, ch);
    vstd::arithmetic::div_mod::lemma_mod_pos_bound(len, ch);
    vstd::arithmetic::mul::lemma_mul_nonnegative(len / ch, ch);
}

/// A frame index below `frames` and a channel below `ch` address a sample
/// below `frames * ch`.
pub proof fn lemma_sample_index(rel: int, frames: int, ch: int, c: int)
    requires
        0 <= rel < frames,
        0 <= c < ch,
    ensures
        0 <= rel * ch + c < frames * ch,
        rel * ch + ch <= frames * ch,
{
    assert(rel * ch + ch <= frames * ch) by (nonlinear_arith)
        requires
            0 <= rel < frames,
            0 < ch,
    ;
    assert(0 <= rel * ch) by (nonlinear_arith)
        requires
            0 <= rel,
            0 < ch,
    ;
}

/// Multiplying a frame count by the channel count is monotonic.
pub proof fn lemma_frames_monotonic(a: int, b: int, ch: int)
    requires
        0 <= a <= b,
        0 < ch,
    ensures
        0 <= a * ch <= b * ch,
{
    assert(0 <= a * ch <= b * ch) by (nonlinear_arith)
        requires
            0 <= a <= b,
            0 < ch,
    ;
}

/// Adding or removing whole frames keeps a length a multiple of `ch`.
pub proof fn lemma_frames_shift(len: int, n: int, ch: int)
    requires
        ch > 0,
        len >= 0,
        len % ch == 0,
        len + n * ch >= 0,
    ensures
        (len + n * ch) % ch == 0,
        (len + n * ch) / ch == len / ch + n,
{
    lemma_whole_frames(len, ch);
    assert(len + n * ch == (len / ch + n) * ch) by (nonlinear_arith)
        requires
            (len / ch) * ch == len,
    ;
    lemma_fundamental_div_mod_converse(len + n * ch, ch, len / ch + n, 0);
}

// ---------------------------------------------------------------------------
// Pending input
// ---------------------------------------------------------------------------
/// The abstract value of an [`InputBuffer`]: the absolute frame number of the
/// first buffered frame, the channel count, and the buffered samples.
pub struct InputView<T> {
    pub start: int,
    pub channels: nat,
    pub samples: Seq<T>,
}

impl<T> InputView<T> {
    /// Whole frames buffered.
    pub open spec fn frames(self) -> int {
        self.samples.len() as int / (self.channels as int)
    }

    /// The absolute frame just past the buffered input.
    pub open spec fn end(self) -> int {
        self.start + self.frames()
    }

    /// Whole frames only, a non-negative start, and an end that fits in an `i64`.
    pub open spec fn wf(self) -> bool {
        &&& self.channels > 0
        &&& self.samples.len() as int % (self.channels as int) == 0
        &&& 0 <= self.start
        &&& self.end() <= i64::MAX
    }

    /// An empty buffer at frame 0.
    pub open spec fn fresh(channels: nat) -> Self {
        InputView { start: 0, channels, samples: Seq::empty() }
    }

    /// The sample of channel `c` at absolute frame `abs`, or `fill` outside the buffer.
    pub open spec fn at_or(self, abs: int, c: int, fill: T) -> T {
        let rel = abs - self.start;
        if 0 <= rel < self.frames() {
            self.samples[rel * (self.channels as int) + c]
        } else {
            fill
        }
    }

    /// The buffer after the whole frames of `input` are appended (a trailing
    /// partial frame is ignored).
    pub open spec fn appended(self, input: Seq<T>) -> Self {
        let ch = self.channels as int;
        InputView {
            start: self.start,
            channels: self.channels,
            samples: self.samples + input.subrange(0, (input.len() as int / ch) * ch),
        }
    }

    /// The buffer after every frame before `keep_from` is dropped.
    pub open spec fn dropped_before(self, keep_from: int) -> Self {
        if keep_from > self.start {
            let ch = self.channels as int;
            InputView {
                start: keep_from,
                channels: self.channels,
                samples: self.samples.subrange(
                    (keep_from - self.start) * ch,
                    self.samples.len() as int,
                ),
            }
        } else {
            self
        }
    }

    /// How many frames a take into `out_len` samples moves.
    pub open spec fn pop_count(self, out_len: int) -> int {
        let cap = out_len / (self.channels as int);
        if cap <= self.frames() {
            cap
        } else {
            self.frames()
        }
    }

    /// The buffer after its first `n` frames are taken.
    pub open spec fn popped(self, n: int) -> Self {
        let ch = self.channels as int;
        InputView {
            start: self.start + n,
            channels: self.channels,
            samples: self.samples.subrange(n * ch, self.samples.len() as int),
        }
    }
}

/// Pending interleaved input, addressed by absolute frame.
pub struct InputBuffer<T> {
    samples: Vec<T>,
    start: i64,
    channels: usize,
}

impl<T> View for InputBuffer<T> {
    type V = InputView<T>;

    closed spec fn view(&self) -> InputView<T> {
        InputView { start: self.start as int, channels: self.channels as nat, samples: self.samples@ }
    }
}

impl<T: Copy> InputBuffer<T> {
    /// An empty buffer at frame 0.
    pub fn new(channels: usize) -> (b: Self)
        requires
            channels > 0,
        ensures
            b@ == InputView::<T>::fresh(channels as nat),
            b@.wf(),
    {
        let b = InputBuffer { samples: Vec::new(), start: 0, channels };
        assert(b@.samples.len() == 0);
        b
    }

    pub fn channels(&self) -> (c: usize)
        ensures
            c == self@.channels,
    {
        self.channels
    }

    /// The absolute frame number of the first buffered frame.
    pub fn start(&self) -> (s: i64)
        ensures
            s == self@.start,
    {
        self.start
    }

    /// Whole frames buffered.
    pub fn frames(&self) -> (n: usize)
        requires
            self@.wf(),
        ensures
            n == self@.frames(),
    {
        self.samples.len() / self.channels
    }

    /// The absolute frame just past the buffered input.
    pub fn end(&self) -> (e: i64)
        requires
            self@.wf(),
        ensures
            e == self@.end(),
    {
        proof {
            lemma_whole_frames(self.samples@.len() as int, self.channels as int);
        }
        let n = self.samples.len() / self.channels;
        self.start + n as i64
    }

    /// Appends the whole frames of `input`; a trailing partial frame is ignored.
    pub fn append_frames(&mut self, input: &[T])
        requires
            old(self)@.wf(),
            old(self)@.end() + input@.len() as int / (old(self)@.channels as int) <= i64::MAX,
        ensures
            final(self)@ == old(self)@.appended(input@),
            final(self)@.wf(),
            final(self)@.end() == old(self)@.end() + input@.len() as int / (old(self)@.channels as int),
    {
        let ch = self.channels;
        let n = input.len() / ch;
        proof {
            lemma_whole_frames(input@.len() as int, ch as int);
        }
        let count = n * ch;
        let ghost before = self.samples@;
        let mut i: usize = 0;
        while i < count
            invariant
                count <= input@.len(),
                i <= count,
                self.samples@ == before + input@.subrange(0, i as int),
                self.channels == ch,
                self.start == old(self).start,
            decreases count - i,
        {
            self.samples.push(input[i]);
            proof {
                assert(input@.subrange(0, i as int + 1) == input@.subrange(0, i as int).push(
                    input@[i as int],
                ));
            }
            i = i + 1;
        }
        proof {
            lemma_frames_shift(before.len() as int, n as int, ch as int);
        }
    }

    /// The sample of channel `c` at absolute frame `abs`, or `fill` outside the buffer.
    pub fn at_or(&self, abs: i64, c: usize, fill: T) -> (s: T)
        requires
            self@.wf(),
            c < self@.channels,
        ensures
            s == self@.at_or(abs as int, c as int, fill),
    {
        if abs < self.start {
            return fill;
        }
        let rel = abs - self.start;
        let frames = self.samples.len() / self.channels;
        proof {
            lemma_whole_frames(self.samples@.len() as int, self.channels as int);
        }
        if rel >= frames as i64 {
            return fill;
        }
        proof {
            lemma_sample_index(rel as int, frames as int, self.channels as int, c as int);
        }
        self.samples[rel as usize * self.channels + c]
    }

    /// Drops every buffered frame before absolute frame `keep_from`; a `keep_from`
    /// at or before the buffer start drops nothing.
    pub fn drop_before(&mut self, keep_from: i64)
        requires
            old(self)@.wf(),
            keep_from <= old(self)@.end(),
        ensures
            final(self)@ == old(self)@.dropped_before(keep_from as int),
            final(self)@.wf(),
    {
        if keep_from > self.start {
            let ch = self.channels;
            let frames = self.samples.len() / ch;
            proof {
                lemma_whole_frames(self.samples@.len() as int, ch as int);
            }
            assert(keep_from - self.start <= frames);
            let drop = (keep_from - self.start) as usize;
            proof {
                lemma_frames_monotonic(drop as int, frames as int, ch as int);
            }
            let n = drop * ch;
            let rest = self.samples.split_off(n);
            self.samples = rest;
            self.start = keep_from;
            proof {
                assert((-(drop as int)) * (ch as int) == -((drop * ch) as int)) by (nonlinear_arith);
                lemma_frames_shift(old(self)@.samples.len() as int, -(drop as int), ch as int);
            }
        }
    }

    /// Moves the first `min(output frames, buffered frames)` frames into the front
    /// of `output` and returns that frame count; the rest of `output` is untouched.
    pub fn pop_front_into(&mut self, output: &mut [T]) -> (n: usize)
        requires
            old(self)@.wf(),
        ensures
            n as int == old(self)@.pop_count(old(output)@.len() as int),
            final(output)@ == old(self)@.samples.subrange(0, n * old(self)@.channels) + old(
                output,
            )@.subrange(n * old(self)@.channels, old(output)@.len() as int),
            final(self)@ == old(self)@.popped(n as int),
            final(self)@.wf(),
    {
        let ch = self.channels;
        let cap = output.len() / ch;
        let frames = self.samples.len() / ch;
        let take = if cap <= frames {
            cap
        } else {
            frames
        };
        proof {
            lemma_whole_frames(self.samples@.len() as int, ch as int);
            lemma_whole_frames(output@.len() as int, ch as int);
            lemma_frames_monotonic(take as int, frames as int, ch as int);
            lemma_frames_monotonic(take as int, cap as int, ch as int);
        }
        let count = take * ch;
        let ghost before = output@;
        let mut i: usize = 0;
        while i < count
            invariant
                count <= self.samples@.len(),
                count <= before.len(),
                i <= count,
                output@.len() == before.len(),
                forall|k: int| 0 <= k < i ==> output@[k] == self.samples@[k],
                forall|k: int| i <= k < before.len() ==> output@[k] == before[k],
            decreases count - i,
        {
            output[i] = self.samples[i];
            i = i + 1;
        }
        let rest = self.samples.split_off(count);
        self.samples = rest;
        self.start = self.start + take as i64;
        proof {
            assert(output@ =~= old(self)@.samples.subrange(0, count as int) + before.subrange(
                count as int,
                before.len() as int,
            ));
            assert((-(take as int)) * (ch as int) == -((take * ch) as int)) by (nonlinear_arith);
            lemma_frames_shift(old(self)@.samples.len() as int, -(take as int), ch as int);
        }
        take
    }

    /// Empties the buffer and rewinds it to frame 0.
    pub fn clear(&mut self)
        requires
            old(self)@.wf(),
        ensures
            final(self)@ == InputView::<T>::fresh(old(self)@.channels),
            final(self)@.wf(),
    {
        self.samples.clear();
        self.start = 0;
        assert(self@.samples.len() == 0);
    }
}

// ---------------------------------------------------------------------------
// Finalized output
// ---------------------------------------------------------------------------
/// The abstract value of an [`OutputQueue`]: the channel count and the queued
/// samples, oldest first.
pub struct QueueView<T> {
    pub channels: nat,
    pub samples: Seq<T>,
}

impl<T> QueueView<T> {
    /// Whole frames queued.
    pub open spec fn frames(self) -> int {
        self.samples.len() as int / (self.channels as int)
    }

    /// How many frames a drain into `out_len` samples hands over.
    pub open spec fn drain_count(self, out_len: int) -> int {
        let cap = out_len / (self.channels as int);
        if cap <= self.frames() {
            cap
        } else {
            self.frames()
        }
    }
}

/// Finalized interleaved output not yet handed to the caller, oldest first.
pub struct OutputQueue<T> {
    samples: VecDeque<T>,
    channels: usize,
}

impl<T> View for OutputQueue<T> {
    type V = QueueView<T>;

    closed spec fn view(&self) -> QueueView<T> {
        QueueView { channels: self.channels as nat, samples: self.samples@ }
    }
}

impl<T: Copy> OutputQueue<T> {
    /// An empty queue.
    pub fn new(channels: usize) -> (q: Self)
        requires
            channels > 0,
        ensures
            q@.channels == channels,
            q@.samples == Seq::<T>::empty(),
    {
        OutputQueue { samples: VecDeque::new(), channels }
    }

    /// Queues one sample behind everything already queued.
    pub fn push(&mut self, sample: T)
        ensures
            final(self)@.channels == old(self)@.channels,
            final(self)@.samples == old(self)@.samples.push(sample),
    {
        self.samples.push_back(sample);
    }

    /// Queues `samples`, in order, behind everything already queued.
    pub fn push_all(&mut self, samples: &[T])
        ensures
            final(self)@.channels == old(self)@.channels,
            final(self)@.samples == old(self)@.samples + samples@,
    {
        let ghost before = self.samples@;
        let mut i: usize = 0;
        while i < samples.len()
            invariant
                i <= samples@.len(),
                self.samples@ == before + samples@.subrange(0, i as int),
                self.channels == old(self).channels,
            decreases samples@.len() - i,
        {
            self.samples.push_back(samples[i]);
            assert(samples@.subrange(0, i as int + 1) =~= samples@.subrange(0, i as int).push(
                samples@[i as int],
            ));
            i = i + 1;
        }
        assert(samples@.subrange(0, samples@.len() as int) =~= samples@);
    }

    /// Queued samples (not frames).
    pub fn len(&self) -> (n: usize)
        ensures
            n == self@.samples.len(),
    {
        self.samples.len()
    }

    pub fn is_empty(&self) -> (b: bool)
        ensures
            b == (self@.samples.len() == 0),
    {
        self.samples.len() == 0
    }

    /// Moves the oldest `min(output frames, queued frames)` whole frames into the
    /// front of `output` and returns that frame count; the rest of `output` is
    /// untouched.
    pub fn drain_into(&mut self, output: &mut [T]) -> (n: usize)
        requires
            old(self)@.channels > 0,
        ensures
            n as int == old(self)@.drain_count(old(output)@.len() as int),
            final(output)@ == old(self)@.samples.subrange(0, n * old(self)@.channels) + old(
                output,
            )@.subrange(n * old(self)@.channels, old(output)@.len() as int),
            final(self)@.channels == old(self)@.channels,
            final(self)@.samples == old(self)@.samples.subrange(
                n * old(self)@.channels,
                old(self)@.samples.len() as int,
            ),
    {
        let ch = self.channels;
        let cap = output.len() / ch;
        let queued = self.samples.len() / ch;
        let frames = if cap <= queued {
            cap
        } else {
            queued
        };
        proof {
            lemma_whole_frames(self.samples@.len() as int, ch as int);
            lemma_whole_frames(output@.len() as int, ch as int);
            lemma_frames_monotonic(frames as int, queued as int, ch as int);
            lemma_frames_monotonic(frames as int, cap as int, ch as int);
        }
        let count = frames * ch;
        let ghost before = output@;
        let ghost queue = self.samples@;
        let mut i: usize = 0;
        while i < count
            invariant
                count <= queue.len(),
                count <= before.len(),
                i <= count,
                output@.len() == before.len(),
                self.samples@ == queue.subrange(i as int, queue.len() as int),
                self.channels == ch,
                forall|k: int| 0 <= k < i ==> output@[k] == queue[k],
                forall|k: int| i <= k < before.len() ==> output@[k] == before[k],
            decreases count - i,
        {
            match self.samples.pop_front() {
                Some(v) => {
                    output[i] = v;
                },
                None => {},
            }
            i = i + 1;
        }
        assert(output@ =~= queue.subrange(0, count as int) + before.subrange(
            count as int,
            before.len() as int,
        ));
        frames
    }

    /// Drops everything queued.
    pub fn clear(&mut self)
        ensures
            final(self)@.channels == old(self)@.channels,
            final(self)@.samples == Seq::<T>::empty(),
    {
        self.samples.clear();
    }
}

// ---------------------------------------------------------------------------
// Overlap-add accumulator
// ---------------------------------------------------------------------------
/// The abstract value of an [`Accumulator`]: the absolute output frame of its
/// first frame, the channel count, and the accumulated samples.
pub struct AccView<T> {
    pub start: int,
    pub channels: nat,
    pub samples: Seq<T>,
}

impl<T> AccView<T> {
    /// Whole frames held.
    pub open spec fn frames(self) -> int {
        self.samples.len() as int / (self.channels as int)
    }

    /// The absolute output frame just past the accumulator.
    pub open spec fn end(self) -> int {
        self.start + self.frames()
    }

    /// Whole frames only, and a start and end that fit in an `i64`.
    pub open spec fn wf(self) -> bool {
        &&& self.channels > 0
        &&& self.samples.len() as int % (self.channels as int) == 0
        &&& i64::MIN <= self.start
        &&& self.end() <= i64::MAX
    }

    /// The start the accumulator has once it must cover a span beginning at
    /// `start_out`: an empty accumulator moves there, a non-empty one stays.
    pub open spec fn anchored_start(self, start_out: int) -> int {
        if self.samples.len() == 0 {
            start_out
        } else {
            self.start
        }
    }

    /// The accumulator after it is made to cover `[start_out, start_out + len)`,
    /// growing at the back with `zero` samples.
    pub open spec fn covering(self, start_out: int, len: int, zero: T) -> Self {
        let s = self.anchored_start(start_out);
        let have_end = s + self.frames();
        let need_end = start_out + len;
        let extra = if need_end > have_end {
            (need_end - have_end) * (self.channels as int)
        } else {
            0
        };
        AccView {
            start: s,
            channels: self.channels,
            samples: self.samples + Seq::new(extra as nat, |i: int| zero),
        }
    }

    /// Samples the accumulator holds once it covers `[start_out, start_out + len)`.
    pub open spec fn covered_len(self, start_out: int, len: int) -> int {
        let s = self.anchored_start(start_out);
        let have_end = s + self.frames();
        let need_end = start_out + len;
        self.samples.len() + if need_end > have_end {
            (need_end - have_end) * (self.channels as int)
        } else {
            0
        }
    }

    /// How many front frames lie before absolute output frame `up_to`.
    pub open spec fn finalizable(self, up_to: int) -> int {
        if up_to <= self.start {
            0
        } else if up_to - self.start <= self.frames() {
            up_to - self.start
        } else {
            self.frames()
        }
    }

    /// The accumulator after its first `n` frames are moved out.
    pub open spec fn advanced(self, n: int) -> Self {
        AccView {
            start: self.start + n,
            channels: self.channels,
            samples: self.samples.subrange(
                n * (self.channels as int),
                self.samples.len() as int,
            ),
        }
    }
}

/// Sample `d` of frame `g` in interleaved samples of `ch` channels.
pub open spec fn frame_sample<T>(s: Seq<T>, ch: int, g: int, d: int) -> T {
    s[g * ch + d]
}

/// An overlap-add accumulator over absolute output frames: grains are added in,
/// and frames no later grain can reach are moved out to the output queue.
pub struct Accumulator<T> {
    samples: VecDeque<T>,
    start: i64,
    channels: usize,
}

impl<T> View for Accumulator<T> {
    type V = AccView<T>;

    closed spec fn view(&self) -> AccView<T> {
        AccView { start: self.start as int, channels: self.channels as nat, samples: self.samples@ }
    }
}

impl<T: Copy> Accumulator<T> {
    /// An empty accumulator at frame 0.
    pub fn new(channels: usize) -> (a: Self)
        requires
            channels > 0,
        ensures
            a@ == (AccView::<T> { start: 0, channels: channels as nat, samples: Seq::empty() }),
            a@.wf(),
    {
        let a = Accumulator { samples: VecDeque::new(), start: 0, channels };
        assert(a@.samples.len() == 0);
        a
    }

    /// The absolute output frame of the first accumulated frame.
    pub fn start(&self) -> (s: i64)
        ensures
            s == self@.start,
    {
        self.start
    }

    /// Accumulated samples (not frames).
    pub fn len(&self) -> (n: usize)
        ensures
            n == self@.samples.len(),
    {
        self.samples.len()
    }

    pub fn is_empty(&self) -> (b: bool)
        ensures
            b == (self@.samples.len() == 0),
    {
        self.samples.len() == 0
    }

    /// Makes the accumulator cover absolute output frames
    /// `[start_out, start_out + len)`, extending it with `zero` at the back. An
    /// empty accumulator first moves its start to `start_out`.
    pub fn ensure_covers(&mut self, start_out: i64, len: usize, zero: T)
        requires
            old(self)@.wf(),
            start_out + len <= i64::MAX,
            old(self)@.covered_len(start_out as int, len as int) <= usize::MAX,
        ensures
            final(self)@ == old(self)@.covering(start_out as int, len as int, zero),
            final(self)@.wf(),
            final(self)@.end() >= start_out + len,
            final(self)@.samples.len() >= old(self)@.samples.len(),
            forall|i: int|
                0 <= i < old(self)@.samples.len() ==> #[trigger] final(self)@.samples[i]
                    == old(self)@.samples[i],
            forall|i: int|
                old(self)@.samples.len() <= i < final(self)@.samples.len()
                    ==> #[trigger] final(self)@.samples[i] == zero,
    {
        proof {
            lemma_covering_keeps_accumulated(old(self)@, start_out as int, len as int, zero);
        }
        let ch = self.channels;
        if self.samples.len() == 0 {
            self.start = start_out;
        }
        proof {
            lemma_whole_frames(self.samples@.len() as int, ch as int);
        }
        let frames = self.samples.len() / ch;
        let have_end: i128 = self.start as i128 + frames as i128;
        let need_end: i128 = start_out as i128 + len as i128;
        let ghost before = self.samples@;
        let ghost target = old(self)@.covering(start_out as int, len as int, zero);
        if need_end > have_end {
            proof {
                let d = (need_end - have_end) as int;
                assert(target.samples.len() == before.len() + d * ch);
                assert(d <= d * ch) by (nonlinear_arith)
                    requires
                        d > 0,
                        ch >= 1,
                ;
            }
            let add_frames = (need_end - have_end) as usize;
            let add = add_frames * ch;
            let mut i: usize = 0;
            while i < add
                invariant
                    i <= add,
                    self.samples@ == before + Seq::new(i as nat, |k: int| zero),
                    self.start == target.start,
                    self.channels == ch,
                decreases add - i,
            {
                self.samples.push_back(zero);
                proof {
                    assert(before + Seq::new((i + 1) as nat, |k: int| zero) =~= (before + Seq::new(
                        i as nat,
                        |k: int| zero,
                    )).push(zero));
                }
                i = i + 1;
            }
            proof {
                assert(self.samples@ =~= target.samples);
                lemma_frames_shift(before.len() as int, add_frames as int, ch as int);
                assert(self@.frames() == frames + add_frames);
            }
        } else {
            assert(self.samples@ =~= target.samples);
            assert(self@.frames() == frames);
        }
    }

    /// Whether [`ensure_covers`](Self::ensure_covers) can extend the accumulator
    /// over `[start_out, start_out + len)` within the frame and length limits.
    pub fn can_cover(&self, start_out: i64, len: usize) -> (b: bool)
        requires
            self@.wf(),
        ensures
            b == (start_out + len <= i64::MAX && self@.covered_len(start_out as int, len as int)
                <= usize::MAX),
    {
        let need_end: i128 = start_out as i128 + len as i128;
        if need_end > i64::MAX as i128 {
            return false;
        }
        let ch = self.channels;
        let total = self.samples.len();
        let frames = total / ch;
        let s: i128 = if total == 0 {
            start_out as i128
        } else {
            self.start as i128
        };
        let have_end: i128 = s + frames as i128;
        if need_end <= have_end {
            return true;
        }
        let extra_frames = need_end - have_end;
        if extra_frames > usize::MAX as i128 {
            proof {
                assert(extra_frames <= extra_frames * ch) by (nonlinear_arith)
                    requires
                        extra_frames > 0,
                        ch >= 1,
                ;
            }
            return false;
        }
        proof {
            assert(extra_frames * ch <= usize::MAX * usize::MAX) by (nonlinear_arith)
                requires
                    0 < extra_frames <= usize::MAX,
                    1 <= ch <= usize::MAX,
            ;
        }
        let extra: u128 = (extra_frames as u128) * (ch as u128);
        (total as u128) + extra <= usize::MAX as u128
    }

    /// The sample index of channel `c` at absolute output frame `abs`.
    pub fn index_of(&self, abs: i64, c: usize) -> (i: usize)
        requires
            self@.wf(),
            self@.start <= abs < self@.end(),
            c < self@.channels,
        ensures
            i as int == (abs - self@.start) * (self@.channels as int) + c,
            i < self@.samples.len(),
    {
        proof {
            lemma_whole_frames(self.samples@.len() as int, self.channels as int);
            lemma_sample_index(
                (abs - self.start) as int,
                self@.frames(),
                self.channels as int,
                c as int,
            );
        }
        assert(self@.frames() <= self.samples@.len());
        let total = self.samples.len();
        assert(self.samples@.len() == total);
        let rel = (abs as i128 - self.start as i128) as usize;
        assert(rel as int == abs - self@.start);
        assert(rel * self.channels + c < self.samples@.len());
        rel * self.channels + c
    }

    /// The accumulated sample at index `i`.
    pub fn get(&self, i: usize) -> (s: T)
        requires
            i < self@.samples.len(),
        ensures
            s == self@.samples[i as int],
    {
        self.samples[i]
    }

    /// Replaces the accumulated sample at index `i`.
    pub fn set(&mut self, i: usize, s: T)
        requires
            i < old(self)@.samples.len(),
        ensures
            final(self)@.start == old(self)@.start,
            final(self)@.channels == old(self)@.channels,
            final(self)@.samples == old(self)@.samples.update(i as int, s),
    {
        let ghost before = self.samples@;
        let mut tail = self.samples.split_off(i);
        let _ = tail.pop_front();
        self.samples.push_back(s);
        self.samples.append(&mut tail);
        assert(self.samples@ =~= before.update(i as int, s));
    }

    /// Moves every whole frame before absolute output frame `up_to` from the
    /// front of the accumulator to the back of `hold`, oldest first.
    pub fn finalize_into(&mut self, up_to: i64, hold: &mut OutputQueue<T>)
        requires
            old(self)@.wf(),
        ensures
            final(self)@ == old(self)@.advanced(old(self)@.finalizable(up_to as int)),
            final(self)@.wf(),
            final(hold)@.channels == old(hold)@.channels,
            final(hold)@.samples == old(hold)@.samples + old(self)@.samples.subrange(
                0,
                old(self)@.finalizable(up_to as int) * (old(self)@.channels as int),
            ),
    {
        let ch = self.channels;
        proof {
            lemma_whole_frames(self.samples@.len() as int, ch as int);
        }
        let frames = self.samples.len() / ch;
        let n: usize = if up_to <= self.start {
            0
        } else if (up_to as i128 - self.start as i128) <= frames as i128 {
            (up_to as i128 - self.start as i128) as usize
        } else {
            frames
        };
        proof {
            lemma_frames_monotonic(n as int, frames as int, ch as int);
        }
        let count = n * ch;
        let ghost acc = self.samples@;
        let ghost held = hold@.samples;
        let mut i: usize = 0;
        while i < count
            invariant
                count <= acc.len(),
                i <= count,
                self.samples@ == acc.subrange(i as int, acc.len() as int),
                hold@.samples == held + acc.subrange(0, i as int),
                hold@.channels == old(hold)@.channels,
                self.channels == ch,
                self.start == old(self).start,
            decreases count - i,
        {
            match self.samples.pop_front() {
                Some(v) => {
                    hold.push(v);
                    assert(acc.subrange(0, i as int + 1) =~= acc.subrange(0, i as int).push(v));
                },
                None => {},
            }
            i = i + 1;
        }
        assert(n as int == old(self)@.finalizable(up_to as int));
        self.start = (self.start as i128 + n as i128) as i64;
        proof {
            assert((-(n as int)) * (ch as int) == -((n * ch) as int)) by (nonlinear_arith);
            lemma_frames_shift(acc.len() as int, -(n as int), ch as int);
        }
    }

    /// Moves every whole frame before absolute output frame `up_to` from the
    /// front of the accumulator to the back of `hold`, oldest first, passing
    /// each sample through `normalize` together with its frame's entry in
    /// `weights`: a one-channel accumulator aligned with this one, whose frames
    /// leave with it.
    pub fn finalize_weighted_into<F: Fn(T, T) -> T>(
        &mut self,
        weights: &mut Accumulator<T>,
        up_to: i64,
        normalize: F,
        hold: &mut OutputQueue<T>,
    )
        requires
            old(self)@.wf(),
            old(weights)@.wf(),
            old(weights)@.channels == 1,
            old(weights)@.start == old(self)@.start,
            old(weights)@.frames() == old(self)@.frames(),
            forall|x: T, w: T| normalize.requires((x, w)),
        ensures
            final(self)@ == old(self)@.advanced(old(self)@.finalizable(up_to as int)),
            final(self)@.wf(),
            final(weights)@ == old(weights)@.advanced(old(self)@.finalizable(up_to as int)),
            final(weights)@.wf(),
            final(hold)@.channels == old(hold)@.channels,
            final(hold)@.samples.len() == old(hold)@.samples.len() + old(self)@.finalizable(
                up_to as int,
            ) * (old(self)@.channels as int),
            final(hold)@.samples.subrange(0, old(hold)@.samples.len() as int) == old(
                hold,
            )@.samples,
            forall|g: int, d: int|
                #![trigger frame_sample(old(self)@.samples, old(self)@.channels as int, g, d)]
                0 <= g < old(self)@.finalizable(up_to as int) && 0 <= d < old(self)@.channels
                    ==> normalize.ensures(
                    (
                        frame_sample(old(self)@.samples, old(self)@.channels as int, g, d),
                        old(weights)@.samples[g],
                    ),
                    final(hold)@.samples[old(hold)@.samples.len() + g * (old(self)@.channels as int)
                        + d],
                ),
    {
        let ch = self.channels;
        proof {
            lemma_whole_frames(self.samples@.len() as int, ch as int);
            lemma_whole_frames(weights.samples@.len() as int, 1);
        }
        let frames = self.samples.len() / ch;
        let n: usize = if up_to <= self.start {
            0
        } else if (up_to as i128 - self.start as i128) <= frames as i128 {
            (up_to as i128 - self.start as i128) as usize
        } else {
            frames
        };
        assert(n as int == old(self)@.finalizable(up_to as int));
        let ghost acc = self.samples@;
        let ghost wts = weights.samples@;
        let ghost held = hold@.samples;
        let ghost chi = ch as int;
        assert(acc.len() == frames * chi);
        assert(wts.len() == frames);
        let mut f: usize = 0;
        while f < n
            invariant
                n <= frames,
                acc.len() == frames * chi,
                wts.len() == frames,
                chi == ch as int,
                ch > 0,
                f <= n,
                self.samples@ == acc.subrange(f * chi, acc.len() as int),
                weights.samples@ == wts.subrange(f as int, wts.len() as int),
                hold@.samples.len() == held.len() + f * chi,
                hold@.samples.subrange(0, held.len() as int) == held,
                hold@.channels == old(hold)@.channels,
                self.channels == ch,
                self.start == old(self).start,
                weights.channels == 1,
                weights.start == old(weights).start,
                forall|x: T, w: T| normalize.requires((x, w)),
                forall|g: int, d: int|
                    #![trigger frame_sample(acc, chi, g, d)]
                    0 <= g < f && 0 <= d < chi ==> normalize.ensures(
                        (frame_sample(acc, chi, g, d), wts[g]),
                        hold@.samples[held.len() + g * chi + d],
                    ),
            decreases n - f,
        {
            proof {
                lemma_sample_index(f as int, frames as int, chi, 0);
            }
            let w = weights.samples[0];
            let _ = weights.samples.pop_front();
            assert(w == wts[f as int]);
            proof {
                lemma_frames_monotonic(f as int + 1, frames as int, chi);
            }
            let mut c: usize = 0;
            while c < ch
                invariant
                    n <= frames,
                    f < n,
                    acc.len() == frames * chi,
                    (f + 1) * chi <= acc.len(),
                    chi == ch as int,
                    w == wts[f as int],
                    c <= ch,
                    self.samples@ == acc.subrange(f * chi + c, acc.len() as int),
                    hold@.samples.len() == held.len() + f * chi + c,
                    hold@.samples.subrange(0, held.len() as int) == held,
                    hold@.channels == old(hold)@.channels,
                    self.channels == ch,
                    self.start == old(self).start,
                    forall|x: T, w: T| normalize.requires((x, w)),
                    forall|g: int, d: int|
                        #![trigger frame_sample(acc, chi, g, d)]
                        (0 <= g < f && 0 <= d < chi) || (g == f && 0 <= d < c)
                            ==> normalize.ensures(
                            (frame_sample(acc, chi, g, d), wts[g]),
                            hold@.samples[held.len() + g * chi + d],
                        ),
                decreases ch - c,
            {
                assert((f + 1) * chi == f * chi + chi) by (nonlinear_arith);
                let x = self.samples[0];
                let _ = self.samples.pop_front();
                assert(x == frame_sample(acc, chi, f as int, c as int));
                let y = normalize(x, w);
                let ghost before = hold@.samples;
                hold.push(y);
                proof {
                    assert(hold@.samples.subrange(0, held.len() as int) =~= before.subrange(
                        0,
                        held.len() as int,
                    ));
                    assert forall|g: int, d: int|
                        (0 <= g < f && 0 <= d < chi) || (g == f && 0 <= d < c + 1) implies normalize.ensures(
                        (#[trigger] frame_sample(acc, chi, g, d), wts[g]),
                        hold@.samples[held.len() + g * chi + d],
                    ) by {
                        if g < f {
                            lemma_sample_index(g, f as int, chi, d);
                        }
                        if g == f && d == c {
                            assert(held.len() + g * chi + d == before.len());
                        }
                    }
                }
                c = c + 1;
            }
            proof {
                assert((f + 1) * chi == f * chi + chi) by (nonlinear_arith);
                assert(wts.subrange(f as int + 1, wts.len() as int) =~= wts.subrange(
                    f as int,
                    wts.len() as int,
                ).subrange(1, wts.len() - f));
            }
            f = f + 1;
        }
        self.start = (self.start as i128 + n as i128) as i64;
        weights.start = (weights.start as i128 + n as i128) as i64;
        proof {
            lemma_frames_monotonic(n as int, frames as int, chi);
            assert((-(n as int)) * chi == -(n * chi)) by (nonlinear_arith);
            lemma_frames_shift(acc.len() as int, -(n as int), chi);
            assert((-(n as int)) * 1 == -(n as int));
            lemma_frames_shift(wts.len() as int, -(n as int), 1);
            assert(weights.samples@ =~= wts.subrange(n as int * 1, wts.len() as int));
        }
    }

    /// Empties the accumulator and rewinds it to frame 0.
    pub fn clear(&mut self)
        requires
            old(self)@.wf(),
        ensures
            final(self)@ == (AccView::<T> {
                start: 0,
                channels: old(self)@.channels,
                samples: Seq::empty(),
            }),
            final(self)@.wf(),
    {
        self.samples.clear();
        self.start = 0;
        assert(self@.samples.len() == 0);
    }
}


// ---------------------------------------------------------------------------
// Laws of the input buffer
// ---------------------------------------------------------------------------
/// Appending never disturbs buffered frames, and every appended frame reads
/// back as written, at the absolute frames just past the old end.
pub proof fn lemma_append_then_read<T>(v: InputView<T>, input: Seq<T>, abs: int, c: int, fill: T)
    requires
        v.wf(),
        0 <= c < v.channels,
    ensures
        abs < v.end() ==> v.appended(input).at_or(abs, c, fill) == v.at_or(abs, c, fill),
        v.end() <= abs < v.end() + input.len() as int / (v.channels as int) ==> v.appended(input).at_or(
            abs,
            c,
            fill,
        ) == input[(abs - v.end()) * (v.channels as int) + c],
        abs >= v.end() + input.len() as int / (v.channels as int) ==> v.appended(input).at_or(
            abs,
            c,
            fill,
        ) == fill,
{
    let ch = v.channels as int;
    let a = v.appended(input);
    let n = input.len() as int / ch;
    lemma_whole_frames(input.len() as int, ch);
    lemma_whole_frames(v.samples.len() as int, ch);
    lemma_frames_shift(v.samples.len() as int, n, ch);
    assert(a.samples.len() == v.samples.len() + n * ch);
    assert(a.frames() == v.frames() + n);
    let rel = abs - v.start;
    if 0 <= rel < v.frames() {
        lemma_sample_index(rel, v.frames(), ch, c);
        assert(a.samples[rel * ch + c] == v.samples[rel * ch + c]);
    }
    if v.end() <= abs < v.end() + n {
        let f = abs - v.end();
        lemma_sample_index(f, n, ch, c);
        assert(rel * ch + c == v.samples.len() + f * ch + c) by (nonlinear_arith)
            requires
                rel == v.frames() + f,
                v.frames() * ch == v.samples.len(),
        ;
        assert(a.samples[rel * ch + c] == input[f * ch + c]);
    }
}

/// Dropping frames before `keep_from` never changes a sample at or after it.
pub proof fn lemma_drop_keeps_reachable<T>(
    v: InputView<T>,
    keep_from: int,
    abs: int,
    c: int,
    fill: T,
)
    requires
        v.wf(),
        keep_from <= v.end(),
        abs >= keep_from,
        0 <= c < v.channels,
    ensures
        v.dropped_before(keep_from).at_or(abs, c, fill) == v.at_or(abs, c, fill),
{
    if keep_from > v.start {
        let ch = v.channels as int;
        let d = keep_from - v.start;
        let w = v.dropped_before(keep_from);
        lemma_whole_frames(v.samples.len() as int, ch);
        lemma_frames_monotonic(d, v.frames(), ch);
        assert((-d) * ch == -(d * ch)) by (nonlinear_arith);
        lemma_frames_shift(v.samples.len() as int, -d, ch);
        assert(w.frames() == v.frames() - d);
        lemma_whole_frames(w.samples.len() as int, ch);
        assert(w.samples.len() == v.samples.len() - d * ch);
        let rel = abs - keep_from;
        assert(0 <= rel < w.frames() <==> 0 <= abs - v.start < v.frames());
        if 0 <= rel < w.frames() {
            lemma_sample_index(rel, w.frames(), ch, c);
            assert(rel * ch + c + d * ch == (abs - v.start) * ch + c) by (nonlinear_arith)
                requires
                    rel == abs - keep_from,
                    d == keep_from - v.start,
            ;
            assert(w.samples[rel * ch + c] == v.samples[rel * ch + c + d * ch]);
        }
    }
}

/// A pass-through is sample-exact: whole frames appended to an empty buffer and
/// then taken into an output with room for them come out unchanged, in order,
/// and leave the buffer empty.
pub proof fn lemma_passthrough_exact<T>(v: InputView<T>, input: Seq<T>, out_len: int)
    requires
        v.wf(),
        v.samples.len() == 0,
        out_len >= input.len(),
    ensures
        v.appended(input).pop_count(out_len) == input.len() as int / (v.channels as int),
        v.appended(input).samples.subrange(
            0,
            v.appended(input).pop_count(out_len) * (v.channels as int),
        ) == input.subrange(0, (input.len() as int / (v.channels as int)) * (v.channels as int)),
        v.appended(input).popped(v.appended(input).pop_count(out_len)).samples.len() == 0,
        v.appended(input).popped(v.appended(input).pop_count(out_len)).start == v.start
            + input.len() as int / (v.channels as int),
{
    let ch = v.channels as int;
    let a = v.appended(input);
    let n = input.len() as int / ch;
    lemma_whole_frames(input.len() as int, ch);
    assert(v.samples.len() == 0 * ch);
    lemma_frames_shift(0, n, ch);
    assert(a.samples =~= input.subrange(0, n * ch));
    assert(a.frames() == n);
    vstd::arithmetic::div_mod::lemma_div_is_ordered(input.len() as int, out_len, ch);
    assert(a.pop_count(out_len) == n);
}

// ---------------------------------------------------------------------------
// Covering
// ---------------------------------------------------------------------------
/// Covering `[start_out, start_out + len)` anchors the accumulator and extends
/// A well-formed input buffer holds whole frames only: its frame count times
/// the channel count is its sample count, and its end is that many frames past
/// its start.
pub proof fn lemma_input_frames_are_whole<T>(v: InputView<T>)
    requires
        v.wf(),
    ensures
        v.frames() >= 0,
        v.frames() * (v.channels as int) == v.samples.len(),
        v.end() == v.start + v.frames(),
{
    lemma_whole_frames(v.samples.len() as int, v.channels as int);
}

/// A queue holding whole frames counts exactly them.
pub proof fn lemma_queue_frames_are_whole<T>(q: QueueView<T>)
    requires
        q.channels > 0,
        q.samples.len() as int % (q.channels as int) == 0,
    ensures
        q.frames() >= 0,
        q.frames() * (q.channels as int) == q.samples.len(),
{
    lemma_whole_frames(q.samples.len() as int, q.channels as int);
}

/// A well-formed accumulator holds whole frames only: its frame count times the
/// channel count is its sample count, and its end is that many frames past its
/// start.
pub proof fn lemma_acc_frames_are_whole<T>(a: AccView<T>)
    requires
        a.wf(),
    ensures
        a.frames() >= 0,
        a.frames() * (a.channels as int) == a.samples.len(),
        a.end() == a.start + a.frames(),
{
    lemma_whole_frames(a.samples.len() as int, a.channels as int);
}

/// A take from the input buffer moves as many whole frames as both the buffer
/// holds and the output has room for: never more than either, and all of one.
pub proof fn lemma_pop_count_fills_or_empties<T>(v: InputView<T>, out_len: int)
    requires
        v.wf(),
        out_len >= 0,
    ensures
        0 <= v.pop_count(out_len) <= v.frames(),
        v.pop_count(out_len) * (v.channels as int) <= out_len,
        v.pop_count(out_len) == v.frames() || (v.pop_count(out_len) + 1) * (v.channels as int)
            > out_len,
{
    let ch = v.channels as int;
    lemma_whole_frames(v.samples.len() as int, ch);
    lemma_whole_frames(out_len, ch);
    vstd::arithmetic::div_mod::lemma_fundamental_div_mod(out_len, ch);
    vstd::arithmetic::div_mod::lemma_mod_pos_bound(out_len, ch);
    lemma_frames_monotonic(v.pop_count(out_len), out_len / ch, ch);
    vstd::arithmetic::mul::lemma_mul_is_commutative(ch, out_len / ch);
    assert((out_len / ch + 1) * ch == (out_len / ch) * ch + ch) by (nonlinear_arith);
}

/// A drain of the output queue hands over as many whole frames as both the
/// queue holds and the output has room for: never more than either, and all of
/// one.
pub proof fn lemma_drain_count_fills_or_empties<T>(q: QueueView<T>, out_len: int)
    requires
        q.channels > 0,
        q.samples.len() as int % (q.channels as int) == 0,
        out_len >= 0,
    ensures
        0 <= q.drain_count(out_len) <= q.frames(),
        q.drain_count(out_len) * (q.channels as int) <= out_len,
        q.drain_count(out_len) == q.frames() || (q.drain_count(out_len) + 1) * (
        q.channels as int) > out_len,
{
    let ch = q.channels as int;
    lemma_whole_frames(q.samples.len() as int, ch);
    lemma_whole_frames(out_len, ch);
    vstd::arithmetic::div_mod::lemma_fundamental_div_mod(out_len, ch);
    vstd::arithmetic::div_mod::lemma_mod_pos_bound(out_len, ch);
    lemma_frames_monotonic(q.drain_count(out_len), out_len / ch, ch);
    vstd::arithmetic::mul::lemma_mul_is_commutative(ch, out_len / ch);
    assert((out_len / ch + 1) * ch == (out_len / ch) * ch + ch) by (nonlinear_arith);
}

/// The frames finalized up to `up_to` are exactly the accumulated frames
/// before it: none when `up_to` is at or before the start, otherwise the frames
/// from the start up to `up_to`, or all of them when the accumulator ends first.
pub proof fn lemma_finalizable_is_the_prefix_before<T>(a: AccView<T>, up_to: int)
    requires
        a.wf(),
    ensures
        0 <= a.finalizable(up_to) <= a.frames(),
        up_to <= a.start ==> a.finalizable(up_to) == 0,
        a.start <= up_to <= a.end() ==> a.start + a.finalizable(up_to) == up_to,
        up_to >= a.end() ==> a.finalizable(up_to) == a.frames(),
{
    lemma_whole_frames(a.samples.len() as int, a.channels as int);
}

/// Covering a span never disturbs what was accumulated: the accumulator keeps
/// its start when it holds anything, every sample it held stays where it was,
/// and it grows only at the back, by silent (`zero`) whole frames, until its end
/// reaches the end of the span.
pub proof fn lemma_covering_keeps_accumulated<T>(v: AccView<T>, start_out: int, len: int, zero: T)
    requires
        v.wf(),
        len >= 0,
    ensures
        ({
            let c = v.covering(start_out, len, zero);
            &&& v.samples.len() > 0 ==> c.start == v.start
            &&& c.channels == v.channels
            &&& c.samples.len() >= v.samples.len()
            &&& c.samples.len() as int % (v.channels as int) == 0
            &&& forall|i: int| 0 <= i < v.samples.len() ==> c.samples[i] == v.samples[i]
            &&& forall|i: int| v.samples.len() <= i < c.samples.len() ==> c.samples[i] == zero
            &&& c.end() >= start_out + len
            &&& c.end() == start_out + len || c.samples.len() == v.samples.len()
        }),
{
    lemma_covering_frames(v, start_out, len, zero);
    let ch = v.channels as int;
    let c = v.covering(start_out, len, zero);
    let s = v.anchored_start(start_out);
    let have_end = s + v.frames();
    let need_end = start_out + len;
    if need_end > have_end {
        assert((need_end - have_end) * ch >= 0) by (nonlinear_arith)
            requires
                need_end > have_end,
                ch >= 1,
        ;
    }
    assert forall|i: int| 0 <= i < v.samples.len() implies c.samples[i] == v.samples[i] by {}
}

/// its end to the span's end when that lies further out; it stays whole frames.
pub proof fn lemma_covering_frames<T>(v: AccView<T>, start_out: int, len: int, zero: T)
    requires
        v.wf(),
        len >= 0,
    ensures
        v.covering(start_out, len, zero).start == v.anchored_start(start_out),
        v.covering(start_out, len, zero).channels == v.channels,
        v.covering(start_out, len, zero).samples.len() as int % (v.channels as int) == 0,
        v.covering(start_out, len, zero).samples.len() == v.covered_len(start_out, len),
        v.covering(start_out, len, zero).frames() == if start_out + len > v.anchored_start(
            start_out,
        ) + v.frames() {
            start_out + len - v.anchored_start(start_out)
        } else {
            v.frames()
        },
{
    let ch = v.channels as int;
    let s = v.anchored_start(start_out);
    let have_end = s + v.frames();
    let need_end = start_out + len;
    let c = v.covering(start_out, len, zero);
    if need_end > have_end {
        lemma_frames_shift(v.samples.len() as int, need_end - have_end, ch);
        assert(c.samples.len() == v.samples.len() + (need_end - have_end) * ch);
    } else {
        assert(c.samples =~= v.samples);
    }
}

/// A one-channel accumulator aligned with another needs no more room to cover a
/// span than the other one does.
pub proof fn lemma_aligned_cover_len<T>(a: AccView<T>, w: AccView<T>, start_out: int, len: int)
    requires
        a.wf(),
        w.wf(),
        w.channels == 1,
        w.start == a.start,
        w.frames() == a.frames(),
    ensures
        w.anchored_start(start_out) == a.anchored_start(start_out),
        w.covered_len(start_out, len) <= a.covered_len(start_out, len),
{
    let ch = a.channels as int;
    lemma_whole_frames(a.samples.len() as int, ch);
    lemma_whole_frames(w.samples.len() as int, 1);
    assert(a.samples.len() == a.frames() * ch);
    assert(w.samples.len() == w.frames());
    assert((a.frames() * ch == 0) == (a.frames() == 0)) by (nonlinear_arith)
        requires
            a.frames() >= 0,
            ch >= 1,
    ;
    assert(a.frames() <= a.frames() * ch) by (nonlinear_arith)
        requires
            a.frames() >= 0,
            ch >= 1,
    ;
    let s = a.anchored_start(start_out);
    let need = start_out + len;
    let have = s + a.frames();
    if need > have {
        assert(need - have <= (need - have) * ch) by (nonlinear_arith)
            requires
                need - have > 0,
                ch >= 1,
        ;
    }
}

// ---------------------------------------------------------------------------
// Laws of the accumulator
// ---------------------------------------------------------------------------
/// Finalizing loses and reorders nothing: the output queue followed by the
/// accumulator holds the same samples before and after, and the accumulator's
/// end frame stays put.
pub proof fn lemma_finalize_conserves<T>(acc: AccView<T>, held: Seq<T>, up_to: int)
    requires
        acc.wf(),
    ensures
        held + acc.samples.subrange(0, acc.finalizable(up_to) * (acc.channels as int)) + acc.advanced(
            acc.finalizable(up_to),
        ).samples == held + acc.samples,
        acc.advanced(acc.finalizable(up_to)).end() == acc.end(),
        acc.advanced(acc.finalizable(up_to)).start <= up_to || acc.finalizable(up_to) == 0
            || acc.advanced(acc.finalizable(up_to)).samples.len() == 0,
{
    let ch = acc.channels as int;
    let n = acc.finalizable(up_to);
    lemma_whole_frames(acc.samples.len() as int, ch);
    lemma_frames_monotonic(n, acc.frames(), ch);
    assert(acc.samples.subrange(0, n * ch) + acc.samples.subrange(n * ch, acc.samples.len() as int)
        =~= acc.samples);
    assert((-n) * ch == -(n * ch)) by (nonlinear_arith);
    lemma_frames_shift(acc.samples.len() as int, -n, ch);
    if n == acc.frames() {
        assert(acc.samples.len() - n * ch == 0);
    }
}

} // verus!

//! Pitch-mark bookkeeping for TD-PSOLA.
//!
//! PSOLA windows one grain around each analysis pitch mark and overlap-adds the
//! grains at a new spacing. This module holds the integer side of that: the
//! synthesis mode, marks in absolute input frames, the grain-period range, the
//! choice of the mark nearest the analysis pointer, and a mark's local period.
use vstd::prelude::*;
use crate::buffer::{
    frame_sample, lemma_aligned_cover_len, lemma_covering_frames, lemma_frames_monotonic,
    lemma_frames_shift, lemma_whole_frames, AccView, Accumulator, InputBuffer, InputView,
    OutputQueue, QueueView,
};
use crate::format::{FormatView, StreamFormat, zero_channels_message, zero_sample_rate_message};
use crate::stretcher::{LatencyFrames, TimeStretchProcessResult, TimeStretcherCapabilities};

verus! {

/// How a PSOLA stretcher runs the synthesis.
#[derive(Debug, Clone, Copy, PartialEq, Eq, Structural)]
pub enum PsolaMode {
    /// Incremental, low-latency synthesis over a bounded sliding buffer — usable live.
    Realtime,
    /// Buffer the whole input and synthesize at end-of-stream. Emits nothing until
    /// the stream ends, so it is not realtime.
    Offline,
}

/// What a PSOLA stretcher can do: nothing without a pitch-mark source; with one,
/// pitch and speed independently, and realtime only in [`PsolaMode::Realtime`].
pub fn psola_capabilities(has_marker: bool, mode: PsolaMode) -> (caps: TimeStretcherCapabilities)
    ensures
        caps == (TimeStretcherCapabilities {
            realtime: has_marker && mode == PsolaMode::Realtime,
            pitch_shift: has_marker,
            time_stretch: has_marker,
            independent_pitch_and_speed: has_marker,
        }),
{
    let realtime = match mode {
        PsolaMode::Realtime => has_marker,
        PsolaMode::Offline => false,
    };
    TimeStretcherCapabilities {
        realtime,
        pitch_shift: has_marker,
        time_stretch: has_marker,
        independent_pitch_and_speed: has_marker,
    }
}

/// A PSOLA stretcher supports realtime autotune exactly when it has a pitch-mark
/// source and runs in [`PsolaMode::Realtime`].
pub proof fn lemma_psola_autotune(has_marker: bool, mode: PsolaMode)
    ensures
        (TimeStretcherCapabilities {
            realtime: has_marker && mode == PsolaMode::Realtime,
            pitch_shift: has_marker,
            time_stretch: has_marker,
            independent_pitch_and_speed: has_marker,
        }).autotune_capable() == (has_marker && mode == PsolaMode::Realtime),
{
}

/// One pitch mark as a marker reports it: a frame position relative to the
/// analysed signal, and whether the period it starts is voiced.
#[derive(Debug, Clone, Copy, PartialEq, Eq, Structural)]
pub struct PitchMark {
    pub position: usize,
    pub voiced: bool,
}

/// One analysis pitch mark in absolute input-frame coordinates.
#[derive(Debug, Clone, Copy, PartialEq, Eq, Structural)]
pub struct Mark {
    pub pos: i64,
    pub voiced: bool,
}

/// Places marks reported for a signal that starts at absolute frame `in_start`.
pub fn absolute_marks(in_start: i64, rel: &[PitchMark]) -> (marks: Vec<Mark>)
    requires
        forall|i: int| 0 <= i < rel@.len() ==> in_start + rel@[i].position <= i64::MAX,
        in_start >= 0,
    ensures
        marks@.len() == rel@.len(),
        forall|i: int|
            0 <= i < rel@.len() ==> #[trigger] marks@[i] == (Mark {
                pos: (in_start + rel@[i].position) as i64,
                voiced: rel@[i].voiced,
            }),
{
    let mut marks: Vec<Mark> = Vec::new();
    let mut i: usize = 0;
    while i < rel.len()
        invariant
            i <= rel@.len(),
            in_start >= 0,
            forall|k: int| 0 <= k < rel@.len() ==> in_start + rel@[k].position <= i64::MAX,
            marks@.len() == i,
            forall|k: int|
                0 <= k < i ==> #[trigger] marks@[k] == (Mark {
                    pos: (in_start + rel@[k].position) as i64,
                    voiced: rel@[k].voiced,
                }),
        decreases rel@.len() - i,
    {
        let m = rel[i];
        assert(in_start + m.position <= i64::MAX);
        let pos = in_start + m.position as i64;
        marks.push(Mark { pos, voiced: m.voiced });
        i = i + 1;
    }
    marks
}

/// Marks in non-decreasing position order.
pub open spec fn sorted(marks: Seq<Mark>) -> bool {
    forall|i: int, j: int| 0 <= i <= j < marks.len() ==> marks[i].pos <= marks[j].pos
}

/// Marks in strictly increasing position order.
pub open spec fn strictly_sorted(marks: Seq<Mark>) -> bool {
    forall|i: int, j: int| 0 <= i < j < marks.len() ==> marks[i].pos < marks[j].pos
}

/// `k` splits the marks into those before frame `p` and those at or after it.
pub open spec fn is_partition_point(marks: Seq<Mark>, p: int, k: int) -> bool {
    &&& 0 <= k <= marks.len()
    &&& forall|i: int| 0 <= i < k ==> marks[i].pos < p
    &&& forall|i: int| k <= i < marks.len() ==> marks[i].pos >= p
}

/// The index of the first mark at or after frame `p` (for sorted marks).
pub open spec fn partition_point(marks: Seq<Mark>, p: int) -> int {
    choose|k: int| is_partition_point(marks, p, k)
}

/// Distance from a mark to frame `p`.
pub open spec fn distance(m: Mark, p: int) -> int {
    if m.pos >= p {
        m.pos - p
    } else {
        p - m.pos
    }
}

/// The mark chosen for frame `p` around partition point `k`: the neighbour on
/// either side of `k` that is nearer, the earlier one on a tie.
pub open spec fn pick(marks: Seq<Mark>, p: int, k: int) -> int {
    if k == 0 {
        0
    } else if k >= marks.len() {
        marks.len() - 1
    } else if p - marks[k - 1].pos <= marks[k].pos - p {
        k - 1
    } else {
        k
    }
}

/// A partition point of sorted marks is unique.
pub proof fn lemma_partition_point_unique(marks: Seq<Mark>, p: int, k1: int, k2: int)
    requires
        is_partition_point(marks, p, k1),
        is_partition_point(marks, p, k2),
    ensures
        k1 == k2,
{
    if k1 < k2 {
        assert(marks[k1].pos >= p);
        assert(marks[k1].pos < p);
    } else if k2 < k1 {
        assert(marks[k2].pos >= p);
        assert(marks[k2].pos < p);
    }
}

/// Sorted marks have a partition point for every frame.
pub proof fn lemma_partition_point_exists(marks: Seq<Mark>, p: int) -> (k: int)
    requires
        sorted(marks),
    ensures
        is_partition_point(marks, p, k),
    decreases marks.len(),
{
    if marks.len() == 0 {
        0
    } else {
        let prefix = marks.drop_last();
        assert(sorted(prefix));
        let k0 = lemma_partition_point_exists(prefix, p);
        let last = marks.len() - 1;
        assert(forall|i: int| 0 <= i < prefix.len() ==> prefix[i] == marks[i]);
        if k0 < prefix.len() {
            assert(marks[k0].pos <= marks[last].pos);
            assert(is_partition_point(marks, p, k0));
            k0
        } else if marks[last].pos < p {
            assert(is_partition_point(marks, p, marks.len() as int));
            marks.len() as int
        } else {
            assert(is_partition_point(marks, p, prefix.len() as int));
            prefix.len() as int
        }
    }
}

/// Index of the mark nearest absolute input frame `p`, or `None` with no marks.
/// For sorted marks it is [`pick`] at the partition point; for marks in any other
/// order it is still an index of some mark.
pub fn nearest_mark(marks: &[Mark], p: i64) -> (r: Option<usize>)
    ensures
        r is None <==> marks@.len() == 0,
        r matches Some(i) ==> i < marks@.len(),
        sorted(marks@) && marks@.len() > 0 ==> r == Some(
            pick(marks@, p as int, partition_point(marks@, p as int)) as usize,
        ),
{
    let n = marks.len();
    if n == 0 {
        return None;
    }
    let mut lo: usize = 0;
    let mut hi: usize = n;
    while lo < hi
        invariant
            n == marks@.len(),
            0 <= lo <= hi <= n,
            sorted(marks@) ==> forall|i: int| 0 <= i < lo ==> marks@[i].pos < p,
            sorted(marks@) ==> forall|i: int| hi <= i < n ==> marks@[i].pos >= p,
        decreases hi - lo,
    {
        let mid = lo + (hi - lo) / 2;
        if marks[mid].pos < p {
            lo = mid + 1;
        } else {
            hi = mid;
        }
    }
    let idx = lo;
    proof {
        if sorted(marks@) {
            assert(is_partition_point(marks@, p as int, idx as int));
            lemma_partition_point_unique(
                marks@,
                p as int,
                idx as int,
                partition_point(marks@, p as int),
            );
        }
    }
    let cand = if idx == 0 {
        0
    } else if idx >= n {
        n - 1
    } else if (p as i128 - marks[idx - 1].pos as i128) <= (marks[idx].pos as i128 - p as i128) {
        idx - 1
    } else {
        idx
    };
    Some(cand)
}

/// For strictly increasing marks, the picked mark is the nearest one to `p`,
/// and no earlier mark is as near.
pub proof fn lemma_pick_is_nearest(marks: Seq<Mark>, p: int)
    requires
        strictly_sorted(marks),
        marks.len() > 0,
    ensures
        0 <= pick(marks, p, partition_point(marks, p)) < marks.len(),
        forall|j: int|
            0 <= j < marks.len() ==> distance(marks[pick(marks, p, partition_point(marks, p))], p)
                <= #[trigger] distance(marks[j], p),
        forall|j: int|
            0 <= j < pick(marks, p, partition_point(marks, p)) ==> distance(
                marks[pick(marks, p, partition_point(marks, p))],
                p,
            ) < #[trigger] distance(marks[j], p),
{
    let k = lemma_partition_point_exists(marks, p);
    lemma_partition_point_unique(marks, p, k, partition_point(marks, p));
}

/// The grain-period range set by the F0 range: `min` is the shortest period, at
/// least 2 frames, and `max` the longest, above `min`.
#[derive(Debug, Clone, Copy, PartialEq, Eq, Structural)]
pub struct PeriodRange {
    min: usize,
    max: usize,
}

/// The abstract value of a [`PeriodRange`].
pub struct PeriodView {
    pub min: nat,
    pub max: nat,
}

/// The shortest period a range built from `min_raw` has: at least 2 frames.
pub open spec fn clamped_min(min_raw: usize) -> nat {
    if min_raw >= 2 {
        min_raw as nat
    } else {
        2
    }
}

impl View for PeriodRange {
    type V = PeriodView;

    closed spec fn view(&self) -> PeriodView {
        PeriodView { min: self.min as nat, max: self.max as nat }
    }
}

impl PeriodRange {
    #[verifier::type_invariant]
    closed spec fn valid(self) -> bool {
        &&& 2 <= self.min < self.max
        &&& 2 * self.max <= usize::MAX
        &&& 2 * self.max <= i64::MAX
    }

    /// Builds the range from the rounded periods of the highest and lowest F0:
    /// the shortest period is at least 2 frames, the longest at least one more.
    pub fn from_rounded(min_raw: usize, max_raw: usize) -> (r: Self)
        requires
            2 * (clamped_min(min_raw) + 1) <= usize::MAX,
            2 * (clamped_min(min_raw) + 1) <= i64::MAX,
            2 * max_raw <= usize::MAX,
            2 * max_raw <= i64::MAX,
        ensures
            r@.min == clamped_min(min_raw),
            min_raw >= 2 ==> r@.min == min_raw,
            min_raw < 2 ==> r@.min == 2,
            r@.max > r@.min,
            r@.max == if max_raw >= r@.min + 1 {
                max_raw as nat
            } else {
                r@.min + 1
            },
    {
        proof {
            lemma_period_clamps(min_raw);
        }
        let min = if min_raw >= 2 {
            min_raw
        } else {
            2
        };
        let max = if max_raw >= min + 1 {
            max_raw
        } else {
            min + 1
        };
        PeriodRange { min, max }
    }

    /// The shortest grain period.
    pub fn min(&self) -> (m: usize)
        ensures
            m == self@.min,
            m >= 2,
    {
        proof {
            use_type_invariant(self);
        }
        self.min
    }

    /// The longest grain period.
    pub fn max(&self) -> (m: usize)
        ensures
            m == self@.max,
            m > self@.min,
            2 * m <= usize::MAX,
    {
        proof {
            use_type_invariant(self);
        }
        self.max
    }

    /// The frontier up to which realtime synthesis trusts the marks of input
    /// buffered up to `buffered_end`: two of the longest periods back from it.
    pub fn settled_frontier(&self, buffered_end: i64) -> (f: i64)
        requires
            buffered_end >= 0,
        ensures
            f == buffered_end - 2 * self@.max,
    {
        proof {
            use_type_invariant(self);
        }
        buffered_end - 2 * self.max as i64
    }

    /// The first input frame still kept once the analysis pointer is at frame
    /// `anal_floor`: two of the longest periods of slack behind it.
    pub fn keep_from(&self, anal_floor: i64) -> (k: i64)
        requires
            anal_floor >= 0,
        ensures
            k == anal_floor - 2 * self@.max,
    {
        proof {
            use_type_invariant(self);
        }
        anal_floor - 2 * self.max as i64
    }

    /// Pitch marks need two of the longest periods of lookahead before the first
    /// grain can form; that is the reported input latency.
    pub fn latency(&self) -> (l: LatencyFrames)
        ensures
            l == (LatencyFrames { input: (2 * self@.max) as usize, output: 0, processing: 0 }),
    {
        proof {
            use_type_invariant(self);
        }
        LatencyFrames::new(2 * self.max, 0, 0)
    }
}

/// The raw spacing at mark `i`: to the next mark, else to the previous one, else
/// the longest period.
pub open spec fn raw_period(marks: Seq<Mark>, i: int, max: int) -> int {
    if i + 1 < marks.len() {
        marks[i + 1].pos - marks[i].pos
    } else if i > 0 {
        marks[i].pos - marks[i - 1].pos
    } else {
        max
    }
}

/// `v` clamped into `[lo, hi]`.
pub open spec fn clamp(v: int, lo: int, hi: int) -> int {
    if v < lo {
        lo
    } else if v > hi {
        hi
    } else {
        v
    }
}

/// The shortest period is the rounded one, raised to 2 frames when shorter.
pub proof fn lemma_period_clamps(min_raw: usize)
    ensures
        clamped_min(min_raw) >= 2,
        clamped_min(min_raw) >= min_raw,
        clamped_min(min_raw) == min_raw || clamped_min(min_raw) == 2,
{
}

/// Clamping into a non-empty range lands in it, keeps a value already in it,
/// and moves one outside it to the nearer end.
pub proof fn lemma_clamp_into_range(v: int, lo: int, hi: int)
    requires
        lo <= hi,
    ensures
        lo <= clamp(v, lo, hi) <= hi,
        lo <= v <= hi ==> clamp(v, lo, hi) == v,
        v < lo ==> clamp(v, lo, hi) == lo,
        v > hi ==> clamp(v, lo, hi) == hi,
{
}

/// The local analysis period at mark `i`: its spacing to a neighbour, at least
/// one frame, clamped to the period range.
pub fn local_period(marks: &[Mark], i: usize, range: &PeriodRange) -> (period: usize)
    requires
        i < marks@.len(),
    ensures
        period as int == clamp(
            if raw_period(marks@, i as int, range@.max as int) >= 1 {
                raw_period(marks@, i as int, range@.max as int)
            } else {
                1
            },
            range@.min as int,
            range@.max as int,
        ),
        range@.min <= period <= range@.max,
        i + 1 < marks@.len() && range@.min <= marks@[i + 1].pos - marks@[i as int].pos
            <= range@.max ==> period == marks@[i + 1].pos - marks@[i as int].pos,
        i + 1 == marks@.len() && i > 0 && range@.min <= marks@[i as int].pos - marks@[i
            - 1].pos <= range@.max ==> period == marks@[i as int].pos - marks@[i - 1].pos,
        marks@.len() == 1 ==> period == range@.max,
{
    let min = range.min();
    let max = range.max();
    proof {
        lemma_clamp_into_range(
            if raw_period(marks@, i as int, range@.max as int) >= 1 {
                raw_period(marks@, i as int, range@.max as int)
            } else {
                1
            },
            range@.min as int,
            range@.max as int,
        );
    }
    let n = marks.len();
    let raw: i128 = if i + 1 < n {
        marks[i + 1].pos as i128 - marks[i].pos as i128
    } else if i > 0 {
        marks[i].pos as i128 - marks[i - 1].pos as i128
    } else {
        max as i128
    };
    let at_least_one: i128 = if raw >= 1 {
        raw
    } else {
        1
    };
    if at_least_one < min as i128 {
        min
    } else if at_least_one > max as i128 {
        max
    } else {
        at_least_one as usize
    }
}


/// The abstract value of a [`PsolaStream`].
pub struct PsolaView<T> {
    pub format: FormatView,
    pub mode: PsolaMode,
    pub input: InputView<T>,
    pub acc: AccView<T>,
    pub wacc: AccView<T>,
    pub out_hold: QueueView<T>,
    pub flushed: bool,
}

impl<T> PsolaView<T> {
    /// The buffers agree with the format, the window-sum accumulator is aligned
    /// frame for frame with the sample accumulator, and only whole frames are
    /// queued for output.
    pub open spec fn wf(self) -> bool {
        &&& self.format.channels > 0
        &&& self.input.wf()
        &&& self.input.channels == self.format.channels
        &&& self.acc.wf()
        &&& self.acc.channels == self.format.channels
        &&& self.wacc.wf()
        &&& self.wacc.channels == 1
        &&& self.wacc.start == self.acc.start
        &&& self.wacc.frames() == self.acc.frames()
        &&& self.out_hold.channels == self.format.channels
        &&& self.out_hold.samples.len() as int % (self.format.channels as int) == 0
    }

    /// Nothing buffered, accumulated or queued, and no end-of-stream synthesis yet.
    pub open spec fn is_fresh(self) -> bool {
        &&& self.input == InputView::<T>::fresh(self.format.channels)
        &&& self.acc == (AccView::<T> {
            start: 0,
            channels: self.format.channels,
            samples: Seq::empty(),
        })
        &&& self.wacc == (AccView::<T> { start: 0, channels: 1, samples: Seq::empty() })
        &&& self.out_hold.samples == Seq::<T>::empty()
        &&& !self.flushed
    }

    /// Whether a call's `(sample_rate, channels)` is the format the stream was built for.
    pub open spec fn matches(self, sample_rate: u32, channels: usize) -> bool {
        self.format.sample_rate == sample_rate && self.format.channels == channels
    }
}

/// The sample-level stream state of a PSOLA stretcher: its format and mode, the
/// pending input, the overlap-add accumulator of grain samples and the one of
/// window values (one per frame) it is normalized by, the finalized output not
/// yet handed back, and whether the end-of-stream synthesis has run.
pub struct PsolaStream<T> {
    format: StreamFormat,
    mode: PsolaMode,
    input: InputBuffer<T>,
    acc: Accumulator<T>,
    wacc: Accumulator<T>,
    out_hold: OutputQueue<T>,
    flushed: bool,
}

impl<T> View for PsolaStream<T> {
    type V = PsolaView<T>;

    closed spec fn view(&self) -> PsolaView<T> {
        PsolaView {
            format: self.format@,
            mode: self.mode,
            input: self.input@,
            acc: self.acc@,
            wacc: self.wacc@,
            out_hold: self.out_hold@,
            flushed: self.flushed,
        }
    }
}

/// `after` is `before` with every accumulated frame before `up_to` finalized:
/// both accumulators advanced past those frames, and their samples, each
/// normalized by its frame's summed window, queued for output in order.
pub open spec fn finalized<T, F: Fn(T, T) -> T>(
    before: PsolaView<T>,
    after: PsolaView<T>,
    up_to: int,
    normalize: F,
) -> bool {
    let n = before.acc.finalizable(up_to);
    let ch = before.format.channels as int;
    let held = before.out_hold.samples;
    &&& after.format == before.format
    &&& after.mode == before.mode
    &&& after.input == before.input
    &&& after.acc == before.acc.advanced(n)
    &&& after.wacc == before.wacc.advanced(n)
    &&& after.out_hold.channels == before.out_hold.channels
    &&& after.out_hold.samples.len() == held.len() + n * ch
    &&& after.out_hold.samples.subrange(0, held.len() as int) == held
    &&& forall|g: int, d: int|
        #![trigger frame_sample(before.acc.samples, ch, g, d)]
        0 <= g < n && 0 <= d < ch ==> normalize.ensures(
            (frame_sample(before.acc.samples, ch, g, d), before.wacc.samples[g]),
            after.out_hold.samples[held.len() + g * ch + d],
        )
}

/// The stream after one drain into an output of `out_len` samples: the oldest
/// whole frames that fit leave the output queue.
pub open spec fn drain_step<T>(v: PsolaView<T>, out_len: int) -> PsolaView<T> {
    let n = v.out_hold.drain_count(out_len);
    PsolaView {
        out_hold: QueueView {
            samples: v.out_hold.samples.subrange(
                n * (v.format.channels as int),
                v.out_hold.samples.len() as int,
            ),
            ..v.out_hold
        },
        ..v
    }
}

/// The stream after `k` successive drains into outputs of `out_len` samples.
pub open spec fn drained<T>(v: PsolaView<T>, out_len: int, k: nat) -> PsolaView<T>
    decreases k,
{
    if k == 0 {
        v
    } else {
        drained(drain_step(v, out_len), out_len, (k - 1) as nat)
    }
}

/// Frames handed over by `k` successive drains into outputs of `out_len` samples.
pub open spec fn drained_total<T>(v: PsolaView<T>, out_len: int, k: nat) -> int
    decreases k,
{
    if k == 0 {
        0
    } else {
        v.out_hold.drain_count(out_len) + drained_total(
            drain_step(v, out_len),
            out_len,
            (k - 1) as nat,
        )
    }
}

/// The output frame past which a final `flush` finalizes everything.
pub open spec fn flush_horizon() -> i64 {
    (i64::MAX / 2) as i64
}

impl<T: Copy> PsolaStream<T> {
    /// A stream for one fixed format and mode. Rejects a zero sample rate, then a
    /// zero channel count.
    pub fn new(sample_rate: u32, channels: usize, mode: PsolaMode) -> (r: Result<Self, String>)
        ensures
            sample_rate == 0 ==> (r matches Err(e) && e@ == zero_sample_rate_message()),
            sample_rate > 0 && channels == 0 ==> (r matches Err(e) && e@
                == zero_channels_message()),
            sample_rate > 0 && channels > 0 ==> (r matches Ok(s) && {
                &&& s@.wf()
                &&& s@.is_fresh()
                &&& s@.mode == mode
                &&& s@.format == (FormatView {
                    sample_rate: sample_rate as nat,
                    channels: channels as nat,
                })
            }),
    {
        let format = match StreamFormat::new(sample_rate, channels) {
            Ok(f) => f,
            Err(e) => {
                return Err(e);
            },
        };
        let ch = format.channels();
        Ok(
            PsolaStream {
                format,
                mode,
                input: InputBuffer::new(ch),
                acc: Accumulator::new(ch),
                wacc: Accumulator::new(1),
                out_hold: OutputQueue::new(ch),
                flushed: false,
            },
        )
    }

    /// The format the stream was built for.
    pub fn format(&self) -> (f: StreamFormat)
        ensures
            f@ == self@.format,
    {
        self.format
    }

    /// The synthesis mode.
    pub fn mode(&self) -> (m: PsolaMode)
        ensures
            m == self@.mode,
    {
        self.mode
    }

    /// The pending input.
    pub fn input(&self) -> (b: &InputBuffer<T>)
        requires
            self@.wf(),
        ensures
            b@ == self@.input,
            b@.wf(),
            b@.channels == self@.format.channels,
    {
        &self.input
    }

    /// The overlap-add accumulator.
    pub fn acc(&self) -> (a: &Accumulator<T>)
        requires
            self@.wf(),
        ensures
            a@ == self@.acc,
            a@.wf(),
            a@.channels == self@.format.channels,
    {
        &self.acc
    }

    /// The window-sum accumulator: one summed window value per output frame,
    /// aligned with [`acc`](Self::acc).
    pub fn weights(&self) -> (w: &Accumulator<T>)
        requires
            self@.wf(),
        ensures
            w@ == self@.wacc,
            w@.wf(),
            w@.channels == 1,
            w@.start == self@.acc.start,
            w@.frames() == self@.acc.frames(),
    {
        &self.wacc
    }

    /// Whether the end-of-stream synthesis has run.
    pub fn is_flushed(&self) -> (b: bool)
        ensures
            b == self@.flushed,
    {
        self.flushed
    }

    /// Finalized output samples (not frames) not yet handed back.
    pub fn held_len(&self) -> (n: usize)
        ensures
            n == self@.out_hold.samples.len(),
    {
        self.out_hold.len()
    }

    /// The first part of a `process` call: with the built-for format, takes the
    /// whole input frames into the buffer and returns their count; with another
    /// format does nothing and returns `None`.
    pub fn accept_input(&mut self, input: &[T], sample_rate: u32, channels: usize) -> (r: Option<
        usize,
    >)
        requires
            old(self)@.wf(),
            old(self)@.matches(sample_rate, channels) ==> old(self)@.input.end() + input@.len() as int
                / (channels as int) <= i64::MAX,
        ensures
            final(self)@.wf(),
            r is None <==> !old(self)@.matches(sample_rate, channels),
            r is None ==> final(self)@ == old(self)@,
            r matches Some(n) ==> {
                &&& n == input@.len() as int / channels as int
                &&& final(self)@ == (PsolaView {
                    input: old(self)@.input.appended(input@),
                    ..old(self)@
                })
            },
    {
        if !self.format.matches(sample_rate, channels) {
            return None;
        }
        let input_frames = input.len() / channels;
        self.input.append_frames(input);
        Some(input_frames)
    }

    /// A pass-through `process` call, for a stretcher with no pitch-mark source:
    /// takes the whole input frames, then moves as many buffered frames as fit
    /// into `output`, unchanged and in order. With another format it does nothing.
    pub fn process_passthrough(
        &mut self,
        input: &[T],
        output: &mut [T],
        sample_rate: u32,
        channels: usize,
    ) -> (r: TimeStretchProcessResult)
        requires
            old(self)@.wf(),
            old(self)@.matches(sample_rate, channels) ==> old(self)@.input.end() + input@.len() as int
                / (channels as int) <= i64::MAX,
        ensures
            final(self)@.wf(),
            !old(self)@.matches(sample_rate, channels) ==> r == TimeStretchProcessResult::nothing()
                && final(self)@ == old(self)@ && final(output)@ == old(output)@,
            old(self)@.matches(sample_rate, channels) ==> {
                let buffered = old(self)@.input.appended(input@);
                let n = buffered.pop_count(old(output)@.len() as int);
                &&& r.input_frames_consumed == input@.len() as int / channels as int
                &&& r.output_frames_written == n
                &&& final(output)@ == buffered.samples.subrange(0, n * channels) + old(
                    output,
                )@.subrange(n * channels, old(output)@.len() as int)
                &&& final(self)@ == (PsolaView { input: buffered.popped(n), ..old(self)@ })
            },
    {
        match self.accept_input(input, sample_rate, channels) {
            None => TimeStretchProcessResult::default(),
            Some(input_frames) => {
                let written = self.input.pop_front_into(output);
                TimeStretchProcessResult {
                    input_frames_consumed: input_frames,
                    output_frames_written: written,
                }
            },
        }
    }

    /// Whether a `flush` into `output_len` samples has anything to do: the
    /// built-for format and room for at least one whole frame.
    pub fn flush_room(&self, output_len: usize, sample_rate: u32, channels: usize) -> (b: bool)
        ensures
            b == (self@.matches(sample_rate, channels) && output_len as int / channels as int > 0),
    {
        if !self.format.matches(sample_rate, channels) {
            return false;
        }
        let ch = self.format.channels();
        output_len / ch > 0
    }

    /// A pass-through `flush`, for a stretcher with no pitch-mark source: moves as
    /// many buffered frames as fit into `output`. With another format or no room
    /// for a whole frame it does nothing.
    pub fn flush_passthrough(&mut self, output: &mut [T], sample_rate: u32, channels: usize) -> (n:
        usize)
        requires
            old(self)@.wf(),
        ensures
            final(self)@.wf(),
            !(old(self)@.matches(sample_rate, channels) && old(output)@.len() as int / channels as int
                > 0) ==> n == 0 && final(self)@ == old(self)@ && final(output)@ == old(output)@,
            (old(self)@.matches(sample_rate, channels) && old(output)@.len() as int / channels as int
                > 0) ==> {
                &&& n == old(self)@.input.pop_count(old(output)@.len() as int)
                &&& final(output)@ == old(self)@.input.samples.subrange(0, n * channels) + old(
                    output,
                )@.subrange(n * channels, old(output)@.len() as int)
                &&& final(self)@ == (PsolaView {
                    input: old(self)@.input.popped(n as int),
                    ..old(self)@
                })
            },
    {
        if !self.flush_room(output.len(), sample_rate, channels) {
            return 0;
        }
        self.input.pop_front_into(output)
    }

    /// Drops every buffered input frame before `keep_from`: see
    /// [`InputBuffer::drop_before`].
    pub fn drop_before(&mut self, keep_from: i64)
        requires
            old(self)@.wf(),
            keep_from <= old(self)@.input.end(),
        ensures
            final(self)@.wf(),
            final(self)@ == (PsolaView {
                input: old(self)@.input.dropped_before(keep_from as int),
                ..old(self)@
            }),
    {
        self.input.drop_before(keep_from);
    }

    /// Makes both accumulators cover `[start_out, start_out + len)`: see
    /// [`Accumulator::ensure_covers`].
    pub fn acc_ensure_covers(&mut self, start_out: i64, len: usize, zero: T)
        requires
            old(self)@.wf(),
            start_out + len <= i64::MAX,
            old(self)@.acc.covered_len(start_out as int, len as int) <= usize::MAX,
        ensures
            final(self)@.wf(),
            final(self)@ == (PsolaView {
                acc: old(self)@.acc.covering(start_out as int, len as int, zero),
                wacc: old(self)@.wacc.covering(start_out as int, len as int, zero),
                ..old(self)@
            }),
            final(self)@.acc.end() >= start_out + len,
    {
        proof {
            lemma_aligned_cover_len(old(self)@.acc, old(self)@.wacc, start_out as int, len as int);
            lemma_covering_frames(old(self)@.acc, start_out as int, len as int, zero);
            lemma_covering_frames(old(self)@.wacc, start_out as int, len as int, zero);
        }
        self.acc.ensure_covers(start_out, len, zero);
        self.wacc.ensure_covers(start_out, len, zero);
    }

    /// Replaces the accumulated sample at index `i`.
    pub fn acc_set(&mut self, i: usize, s: T)
        requires
            old(self)@.wf(),
            i < old(self)@.acc.samples.len(),
        ensures
            final(self)@.wf(),
            final(self)@ == (PsolaView {
                acc: AccView { samples: old(self)@.acc.samples.update(i as int, s), ..old(self)@.acc },
                ..old(self)@
            }),
    {
        self.acc.set(i, s);
    }

    /// Replaces the summed window value at index `i`.
    pub fn wacc_set(&mut self, i: usize, s: T)
        requires
            old(self)@.wf(),
            i < old(self)@.wacc.samples.len(),
        ensures
            final(self)@.wf(),
            final(self)@ == (PsolaView {
                wacc: AccView {
                    samples: old(self)@.wacc.samples.update(i as int, s),
                    ..old(self)@.wacc
                },
                ..old(self)@
            }),
    {
        self.wacc.set(i, s);
    }

    /// Finalizes every accumulated frame before `up_to`: each of its samples is
    /// normalized by the frame's summed window (`normalize(sample, window sum)`)
    /// and queued for output, oldest first; see
    /// [`Accumulator::finalize_weighted_into`].
    pub fn finalize<F: Fn(T, T) -> T>(&mut self, up_to: i64, normalize: F)
        requires
            old(self)@.wf(),
            forall|x: T, w: T| normalize.requires((x, w)),
        ensures
            final(self)@.wf(),
            finalized(old(self)@, final(self)@, up_to as int, normalize),
            final(self)@.flushed == old(self)@.flushed,
    {
        self.finalize_through(up_to, normalize);
    }

    /// The end of the end-of-stream synthesis: every accumulated frame is
    /// finalized (normalized) into the output queue, and the stream is marked
    /// flushed.
    pub fn finalize_all<F: Fn(T, T) -> T>(&mut self, normalize: F)
        requires
            old(self)@.wf(),
            forall|x: T, w: T| normalize.requires((x, w)),
        ensures
            final(self)@.wf(),
            finalized(old(self)@, final(self)@, flush_horizon() as int, normalize),
            final(self)@.flushed,
    {
        self.finalize_through(i64::MAX / 2, normalize);
        self.flushed = true;
    }

    fn finalize_through<F: Fn(T, T) -> T>(&mut self, up_to: i64, normalize: F)
        requires
            old(self)@.wf(),
            forall|x: T, w: T| normalize.requires((x, w)),
        ensures
            final(self)@.wf(),
            finalized(old(self)@, final(self)@, up_to as int, normalize),
            final(self)@.flushed == old(self)@.flushed,
    {
        let ghost held = self.out_hold@.samples;
        self.acc.finalize_weighted_into(&mut self.wacc, up_to, normalize, &mut self.out_hold);
        proof {
            let n = old(self)@.acc.finalizable(up_to as int);
            let ch = old(self)@.format.channels as int;
            lemma_whole_frames(old(self)@.acc.samples.len() as int, ch);
            lemma_frames_monotonic(n, old(self)@.acc.frames(), ch);
            lemma_frames_shift(held.len() as int, n, ch);
            assert((-n) * ch == -(n * ch)) by (nonlinear_arith);
            lemma_frames_shift(old(self)@.acc.samples.len() as int, -n, ch);
            lemma_frames_shift(old(self)@.wacc.samples.len() as int, -n, 1);
        }
    }

    /// Hands finalized output to the caller: see [`OutputQueue::drain_into`].
    /// One call is one step of [`drained`].
    pub fn drain(&mut self, output: &mut [T]) -> (n: usize)
        requires
            old(self)@.wf(),
        ensures
            final(self)@.wf(),
            n as int == old(self)@.out_hold.drain_count(old(output)@.len() as int),
            final(output)@ == old(self)@.out_hold.samples.subrange(
                0,
                n * old(self)@.format.channels,
            ) + old(output)@.subrange(n * old(self)@.format.channels, old(output)@.len() as int),
            final(self)@ == drained(old(self)@, old(output)@.len() as int, 1),
    {
        proof {
            reveal_with_fuel(drained, 2);
        }
        let ghost held = self.out_hold@.samples;
        let n = self.out_hold.drain_into(output);
        proof {
            let ch = old(self)@.format.channels as int;
            lemma_whole_frames(held.len() as int, ch);
            lemma_frames_monotonic(n as int, held.len() as int / ch, ch);
            assert((-(n as int)) * ch == -(n * ch)) by (nonlinear_arith);
            lemma_frames_shift(held.len() as int, -(n as int), ch);
        }
        n
    }

    /// Clears all stream state so the stream behaves like a freshly built one.
    pub fn reset(&mut self)
        requires
            old(self)@.wf(),
        ensures
            final(self)@.wf(),
            final(self)@.is_fresh(),
            final(self)@.format == old(self)@.format,
            final(self)@.mode == old(self)@.mode,
    {
        self.input.clear();
        self.acc.clear();
        self.wacc.clear();
        self.out_hold.clear();
        self.flushed = false;
    }
}

/// One drain keeps the stream well formed, changes nothing but the output
/// queue, and removes exactly the frames it hands over from its front.
proof fn lemma_drain_step<T>(v: PsolaView<T>, out_len: int)
    requires
        v.wf(),
        out_len / (v.format.channels as int) >= 1,
    ensures
        ({
            let ch = v.format.channels as int;
            let n = v.out_hold.drain_count(out_len);
            let w = drain_step(v, out_len);
            &&& w.wf()
            &&& 0 <= n <= v.out_hold.frames()
            &&& w.out_hold.frames() == v.out_hold.frames() - n
            &&& n == 0 <==> v.out_hold.samples.len() == 0
            &&& n < out_len / ch ==> w.out_hold.samples.len() == 0
        }),
{
    let ch = v.format.channels as int;
    let len = v.out_hold.samples.len() as int;
    let n = v.out_hold.drain_count(out_len);
    lemma_whole_frames(len, ch);
    lemma_frames_monotonic(n, len / ch, ch);
    assert((-n) * ch == -(n * ch)) by (nonlinear_arith);
    lemma_frames_shift(len, -n, ch);
    if len / ch == 0 {
        assert(len == 0);
    }
}

/// Once the end-of-stream synthesis has run (or at any other point), flushing
/// only drains the output queue. `k` successive drains into outputs of
/// `out_len` samples, with room for at least one frame each, leave everything
/// but the queue as it was; together they hand over `drained_total` frames,
/// never more than were queued, taken from the front of the queue in order, so
/// the next drain hands over the frames that come right after them. A drain
/// hands over no frame exactly when the queue is empty, and from then on every
/// drain hands over none. Once the `k` drains had room for every queued frame,
/// they have handed all of them over and the queue is empty.
pub proof fn lemma_flushed_stream_drains<T>(v: PsolaView<T>, out_len: int, k: nat)
    requires
        v.wf(),
        out_len / (v.format.channels as int) >= 1,
    ensures
        ({
            let ch = v.format.channels as int;
            let total = drained_total(v, out_len, k);
            let rest = drained(v, out_len, k);
            let len = v.out_hold.samples.len() as int;
            &&& rest.wf()
            &&& 0 <= total <= v.out_hold.frames()
            &&& rest == (PsolaView {
                out_hold: QueueView {
                    samples: v.out_hold.samples.subrange(total * ch, len),
                    ..v.out_hold
                },
                ..v
            })
            &&& rest.out_hold.samples.subrange(0, rest.out_hold.drain_count(out_len) * ch)
                == v.out_hold.samples.subrange(
                total * ch,
                (total + rest.out_hold.drain_count(out_len)) * ch,
            )
            &&& rest.out_hold.drain_count(out_len) == 0 <==> rest.out_hold.samples.len() == 0
            &&& len == 0 ==> total == 0
            &&& k * (out_len / ch) >= v.out_hold.frames() ==> total == v.out_hold.frames()
                && rest.out_hold.samples.len() == 0
        }),
    decreases k,
{
    let ch = v.format.channels as int;
    let len = v.out_hold.samples.len() as int;
    let cap = out_len / ch;
    lemma_whole_frames(len, ch);
    if k == 0 {
        assert(v.out_hold.samples.subrange(0, len) =~= v.out_hold.samples);
        assert(v.out_hold =~= QueueView { samples: v.out_hold.samples.subrange(0, len), ..v.out_hold });
        lemma_drain_step(v, out_len);
        if k * cap >= v.out_hold.frames() {
            assert(v.out_hold.frames() == 0);
            assert(len == 0);
        }
    } else {
        let n = v.out_hold.drain_count(out_len);
        let w = drain_step(v, out_len);
        lemma_drain_step(v, out_len);
        lemma_flushed_stream_drains(w, out_len, (k - 1) as nat);
        let t = drained_total(w, out_len, (k - 1) as nat);
        let wlen = w.out_hold.samples.len() as int;
        lemma_frames_monotonic(n, len / ch, ch);
        lemma_frames_monotonic(t, w.out_hold.frames(), ch);
        lemma_whole_frames(wlen, ch);
        assert(n * ch + t * ch == (n + t) * ch) by (nonlinear_arith);
        assert(n * ch + wlen == len);
        assert(w.out_hold.samples.subrange(t * ch, wlen) =~= v.out_hold.samples.subrange(
            (n + t) * ch,
            len,
        ));
        let rest = drained(v, out_len, k);
        let c = rest.out_hold.drain_count(out_len);
        assert(rest == drained(w, out_len, (k - 1) as nat));
        assert((-t) * ch == -(t * ch)) by (nonlinear_arith);
        lemma_frames_shift(wlen, -t, ch);
        lemma_frames_monotonic(t + c, w.out_hold.frames(), ch);
        assert(n * ch + (t + c) * ch == (n + t + c) * ch) by (nonlinear_arith);
        assert(w.out_hold.samples.subrange(t * ch, (t + c) * ch) =~= v.out_hold.samples.subrange(
            (n + t) * ch,
            (n + t + c) * ch,
        ));
        if k * cap >= v.out_hold.frames() {
            if n == cap {
                assert(k * cap == (k - 1) * cap + cap) by (nonlinear_arith);
            } else {
                assert(w.out_hold.frames() == 0);
                assert((k - 1) * cap >= 0) by (nonlinear_arith)
                    requires
                        k >= 1,
                        cap >= 1,
                ;
            }
        }
        if len == 0 {
            assert(n == 0);
        }
    }
}

/// Reset behaves like a fresh build: two well-formed fresh streams of the same
/// format and mode hold the same state, whether one was just built and the
/// other reset.
pub proof fn lemma_fresh_streams_agree<T>(a: PsolaView<T>, b: PsolaView<T>)
    requires
        a.wf(),
        b.wf(),
        a.is_fresh(),
        b.is_fresh(),
        a.format == b.format,
        a.mode == b.mode,
    ensures
        a == b,
{
    assert(a.out_hold.samples =~= b.out_hold.samples);
    assert(a.wacc.samples =~= b.wacc.samples);
    assert(a.out_hold =~= b.out_hold);
}

} // verus!

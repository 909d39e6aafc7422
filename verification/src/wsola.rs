//! Grain geometry of WSOLA (Waveform Similarity Overlap-Add).
//!
//! WSOLA changes a signal's length while keeping its pitch: it overlap-adds
//! windowed grains read at an analysis hop that differs from the synthesis hop,
//! and picks each grain within a small search radius so that it best continues
//! the previous one. This module holds the integer geometry: the synthesis hop,
//! the grain length, the search radius, and what they imply for lookahead,
//! the search range and how much input may be dropped.
use vstd::prelude::*;
use crate::buffer::{InputBuffer, InputView, OutputQueue, QueueView};
use crate::format::{FormatView, StreamFormat, zero_channels_message, zero_sample_rate_message};
use crate::stretcher::{LatencyFrames, TimeStretcherCapabilities};

verus! {

/// The fixed grain geometry of a WSOLA stretcher, in per-channel frames.
#[derive(Debug, Clone, Copy, PartialEq, Eq, Structural)]
pub struct WsolaGeometry {
    synth_hop: usize,
    frame: usize,
    search: usize,
}

/// The abstract value of a [`WsolaGeometry`].
pub struct GeometryView {
    /// Synthesis hop `Hs`.
    pub synth_hop: nat,
    /// Grain length `N = 2 * Hs` (50% overlap).
    pub frame: nat,
    /// Similarity search radius `Δ`.
    pub search: nat,
}

impl GeometryView {
    /// Frames of lookahead a grain needs: the search window, the grain, and one
    /// synthesis hop beyond it for the next continuation target.
    pub open spec fn lookahead(self) -> int {
        (self.search + self.frame + self.synth_hop) as int
    }
}

impl View for WsolaGeometry {
    type V = GeometryView;

    closed spec fn view(&self) -> GeometryView {
        GeometryView {
            synth_hop: self.synth_hop as nat,
            frame: self.frame as nat,
            search: self.search as nat,
        }
    }
}

/// The search radius a geometry built from `search_raw` has.
pub open spec fn clamped_search(search_raw: usize) -> nat {
    if search_raw >= 16 {
        search_raw as nat
    } else {
        16
    }
}

/// A hop and search radius whose lookahead (`search + 2 * hop + hop`) fits in a
/// `usize` and whose radius fits in an `i64`.
pub open spec fn fits(hop: nat, search: nat) -> bool {
    &&& 3 * hop + search <= usize::MAX
    &&& search <= i64::MAX
}

impl WsolaGeometry {
    #[verifier::type_invariant]
    closed spec fn valid(self) -> bool {
        &&& 64 <= self.synth_hop
        &&& self.frame == 2 * self.synth_hop
        &&& 16 <= self.search
        &&& fits(self.synth_hop as nat, self.search as nat)
    }

    /// Builds the geometry from the rounded synthesis hop (~15 ms) and search
    /// radius (~12 ms), clamped to sane minimums for tiny sample rates: a hop of
    /// at least 64 frames and a radius of at least 16.
    pub fn from_rounded(hop_raw: usize, search_raw: usize) -> (g: Self)
        requires
            fits(clamped_hop(hop_raw), clamped_search(search_raw)),
        ensures
            g@.synth_hop == clamped_hop(hop_raw),
            g@.frame == 2 * g@.synth_hop,
            g@.search == clamped_search(search_raw),
            hop_raw >= 64 ==> g@.synth_hop == hop_raw,
            hop_raw < 64 ==> g@.synth_hop == 64,
            search_raw >= 16 ==> g@.search == search_raw,
            search_raw < 16 ==> g@.search == 16,
            g@.lookahead() == g@.search + 3 * g@.synth_hop,
    {
        proof {
            lemma_clamps_are_floors(hop_raw, search_raw);
        }
        let synth_hop = if hop_raw >= 64 {
            hop_raw
        } else {
            64
        };
        let search = if search_raw >= 16 {
            search_raw
        } else {
            16
        };
        WsolaGeometry { synth_hop, frame: synth_hop * 2, search }
    }

    pub fn synth_hop(&self) -> (h: usize)
        ensures
            h == self@.synth_hop,
            64 <= h,
            fits(h as nat, self@.search),
    {
        proof {
            use_type_invariant(self);
        }
        self.synth_hop
    }

    pub fn frame(&self) -> (n: usize)
        ensures
            n == self@.frame,
            n == 2 * self@.synth_hop,
    {
        proof {
            use_type_invariant(self);
        }
        self.frame
    }

    pub fn search(&self) -> (d: usize)
        ensures
            d == self@.search,
            16 <= d <= i64::MAX,
    {
        proof {
            use_type_invariant(self);
        }
        self.search
    }

    /// The lookahead a grain needs, reported as input-side latency.
    pub fn latency(&self) -> (l: LatencyFrames)
        ensures
            l == (LatencyFrames { input: self@.lookahead() as usize, output: 0, processing: 0 }),
    {
        proof {
            use_type_invariant(self);
        }
        LatencyFrames::new(self.search + self.frame + self.synth_hop, 0, 0)
    }

    /// Whether the input buffered up to absolute frame `buffered_end` covers the
    /// grain whose ideal start is `ideal`, with its search window and the
    /// following continuation target.
    pub fn grain_ready(&self, ideal: i64, buffered_end: i64) -> (b: bool)
        ensures
            b == (ideal + self@.lookahead() <= buffered_end),
    {
        proof {
            use_type_invariant(self);
        }
        let need_end: i128 = ideal as i128 + self.search as i128 + self.frame as i128
            + self.synth_hop as i128;
        need_end <= buffered_end as i128
    }

    /// The offsets around `ideal` that the similarity search tries: up to the
    /// search radius either way, but never starting before the buffered input.
    pub fn search_bounds(&self, ideal: i64, in_start: i64) -> (r: (i64, i64))
        requires
            ideal >= 0,
            in_start >= 0,
        ensures
            r.0 == if in_start - ideal >= -(self@.search as int) {
                in_start - ideal
            } else {
                -(self@.search as int)
            },
            r.1 == self@.search,
            r.0 <= r.1 || in_start - ideal > self@.search,
    {
        proof {
            use_type_invariant(self);
        }
        let search = self.search as i64;
        let floor = in_start - ideal;
        let lo = if floor >= -search {
            floor
        } else {
            -search
        };
        (lo, search)
    }

    /// The first input frame a grain whose ideal start is `ideal` can still
    /// reach; everything before it may be dropped.
    pub fn keep_from(&self, ideal: i64) -> (k: i64)
        requires
            ideal >= 0,
        ensures
            k == ideal - self@.search,
    {
        proof {
            use_type_invariant(self);
        }
        ideal - self.search as i64
    }

    /// WSOLA changes length only: realtime, time-stretch, no pitch shift.
    pub fn capabilities() -> (caps: TimeStretcherCapabilities)
        ensures
            caps == (TimeStretcherCapabilities {
                realtime: true,
                pitch_shift: false,
                time_stretch: true,
                independent_pitch_and_speed: false,
            }),
            !caps.autotune_capable(),
    {
        TimeStretcherCapabilities {
            realtime: true,
            pitch_shift: false,
            time_stretch: true,
            independent_pitch_and_speed: false,
        }
    }
}


/// The synthesis hop a geometry built from `hop_raw` has.
pub open spec fn clamped_hop(hop_raw: usize) -> nat {
    if hop_raw >= 64 {
        hop_raw as nat
    } else {
        64
    }
}

/// A grain's lookahead is its search window, the grain itself (two hops) and
/// one more hop: the radius plus three synthesis hops.
pub proof fn lemma_lookahead_spans_grain(g: GeometryView)
    requires
        g.frame == 2 * g.synth_hop,
    ensures
        g.lookahead() == g.search + 3 * g.synth_hop,
        g.lookahead() == g.search + g.frame + g.synth_hop,
{
}

/// The geometry's clamps are floors and nothing else: a rounded hop of at least
/// 64 frames and a rounded radius of at least 16 are kept as they are, and
/// smaller ones are raised to exactly those minimums. So the hop is the larger
/// of the rounded hop and 64, and the radius the larger of the rounded radius
/// and 16.
pub proof fn lemma_clamps_are_floors(hop_raw: usize, search_raw: usize)
    ensures
        clamped_hop(hop_raw) >= 64,
        clamped_hop(hop_raw) >= hop_raw,
        clamped_hop(hop_raw) == hop_raw || clamped_hop(hop_raw) == 64,
        clamped_search(search_raw) >= 16,
        clamped_search(search_raw) >= search_raw,
        clamped_search(search_raw) == search_raw || clamped_search(search_raw) == 16,
{
}

/// Overwrites every sample with `zero`.
pub fn silence<T: Copy>(samples: &mut Vec<T>, zero: T)
    ensures
        final(samples)@ == Seq::new(old(samples)@.len(), |i: int| zero),
{
    let len = samples.len();
    let mut j: usize = 0;
    while j < len
        invariant
            len == samples@.len(),
            j <= len,
            forall|k: int| 0 <= k < j ==> samples@[k] == zero,
        decreases len - j,
    {
        samples.set(j, zero);
        j = j + 1;
    }
    assert(samples@ =~= Seq::new(len as nat, |k: int| zero));
}

/// The abstract value of a [`WsolaStream`].
pub struct WsolaView<T> {
    pub format: FormatView,
    pub geometry: GeometryView,
    pub input: InputView<T>,
    pub tail: Seq<T>,
    pub out_hold: QueueView<T>,
    pub primed: bool,
}

impl<T> WsolaView<T> {
    /// The buffers agree with the format, and the tail is one synthesis hop long.
    pub open spec fn wf(self) -> bool {
        &&& self.input.wf()
        &&& self.input.channels == self.format.channels
        &&& self.out_hold.channels == self.format.channels
        &&& self.format.channels > 0
        &&& self.tail.len() == self.geometry.synth_hop * self.format.channels
    }

    /// Nothing buffered, queued or primed, and a silent tail.
    pub open spec fn is_fresh(self, zero: T) -> bool {
        &&& self.input == InputView::<T>::fresh(self.format.channels)
        &&& self.tail == Seq::new(self.tail.len(), |i: int| zero)
        &&& self.out_hold.samples == Seq::<T>::empty()
        &&& !self.primed
    }

    /// Whether a call's `(sample_rate, channels)` is the format the stream was built for.
    pub open spec fn matches(self, sample_rate: u32, channels: usize) -> bool {
        self.format.sample_rate == sample_rate && self.format.channels == channels
    }
}

/// The sample-level stream state of a WSOLA stretcher: its format and grain
/// geometry, the pending input, the un-finalized second half of the last grain
/// (`tail`), the finalized output not yet handed back, and whether a first grain
/// has primed the tail.
pub struct WsolaStream<T> {
    format: StreamFormat,
    geometry: WsolaGeometry,
    input: InputBuffer<T>,
    tail: Vec<T>,
    out_hold: OutputQueue<T>,
    primed: bool,
}

impl<T> View for WsolaStream<T> {
    type V = WsolaView<T>;

    closed spec fn view(&self) -> WsolaView<T> {
        WsolaView {
            format: self.format@,
            geometry: self.geometry@,
            input: self.input@,
            tail: self.tail@,
            out_hold: self.out_hold@,
            primed: self.primed,
        }
    }
}

impl<T: Copy> WsolaStream<T> {
    /// A stream for one fixed format, with the geometry built from the rounded
    /// hop and search radius. Rejects a zero sample rate, then a zero channel count.
    pub fn new(sample_rate: u32, channels: usize, hop_raw: usize, search_raw: usize, zero: T) -> (r:
        Result<Self, String>)
        requires
            fits(clamped_hop(hop_raw), clamped_search(search_raw)),
            sample_rate > 0 && channels > 0 ==> clamped_hop(hop_raw) * channels <= usize::MAX,
        ensures
            sample_rate == 0 ==> (r matches Err(e) && e@ == zero_sample_rate_message()),
            sample_rate > 0 && channels == 0 ==> (r matches Err(e) && e@
                == zero_channels_message()),
            sample_rate > 0 && channels > 0 ==> (r matches Ok(s) && {
                &&& s@.wf()
                &&& s@.is_fresh(zero)
                &&& s@.format == (FormatView {
                    sample_rate: sample_rate as nat,
                    channels: channels as nat,
                })
                &&& s@.geometry.synth_hop == clamped_hop(hop_raw)
                &&& s@.geometry.frame == 2 * clamped_hop(hop_raw)
                &&& s@.geometry.search == clamped_search(search_raw)
            }),
    {
        let format = match StreamFormat::new(sample_rate, channels) {
            Ok(f) => f,
            Err(e) => {
                return Err(e);
            },
        };
        let ch = format.channels();
        let geometry = WsolaGeometry::from_rounded(hop_raw, search_raw);
        let hop = geometry.synth_hop();
        let len = hop * ch;
        let mut tail: Vec<T> = Vec::new();
        let mut i: usize = 0;
        while i < len
            invariant
                i <= len,
                tail@ == Seq::new(i as nat, |k: int| zero),
            decreases len - i,
        {
            tail.push(zero);
            assert(tail@ =~= Seq::new((i + 1) as nat, |k: int| zero));
            i = i + 1;
        }
        Ok(
            WsolaStream {
                format,
                geometry,
                input: InputBuffer::new(ch),
                tail,
                out_hold: OutputQueue::new(ch),
                primed: false,
            },
        )
    }

    /// The format the stream was built for.
    pub fn format(&self) -> (f: StreamFormat)
        ensures
            f@ == self@.format,
    {
        self.format
    }

    /// The grain geometry.
    pub fn geometry(&self) -> (g: WsolaGeometry)
        ensures
            g@ == self@.geometry,
    {
        self.geometry
    }

    /// The pending input.
    pub fn input(&self) -> (b: &InputBuffer<T>)
        requires
            self@.wf(),
        ensures
            b@ == self@.input,
            b@.wf(),
            b@.channels == self@.format.channels,
    {
        &self.input
    }

    /// The first part of a `process` call: with the built-for format, takes the
    /// whole input frames into the buffer and returns `(input frames, output
    /// capacity in frames)` — the capacity may be 0, in which case nothing will be
    /// written; with another format does nothing and returns `None`.
    pub fn accept_input(&mut self, input: &[T], output_len: usize, sample_rate: u32, channels: usize) -> (r:
        Option<(usize, usize)>)
        requires
            old(self)@.wf(),
            old(self)@.matches(sample_rate, channels) ==> old(self)@.input.end() + input@.len() as int
                / (channels as int) <= i64::MAX,
        ensures
            final(self)@.wf(),
            r is None <==> !old(self)@.matches(sample_rate, channels),
            r is None ==> final(self)@ == old(self)@,
            r matches Some(p) ==> {
                &&& p.0 == input@.len() as int / channels as int
                &&& p.1 == output_len as int / channels as int
                &&& final(self)@ == (WsolaView {
                    input: old(self)@.input.appended(input@),
                    ..old(self)@
                })
            },
    {
        if !self.format.matches(sample_rate, channels) {
            return None;
        }
        let input_frames = input.len() / channels;
        let capacity = output_len / channels;
        self.input.append_frames(input);
        Some((input_frames, capacity))
    }

    /// Drops every buffered input frame before `keep_from`: see
    /// [`InputBuffer::drop_before`].
    pub fn drop_before(&mut self, keep_from: i64)
        requires
            old(self)@.wf(),
            keep_from <= old(self)@.input.end(),
        ensures
            final(self)@.wf(),
            final(self)@ == (WsolaView {
                input: old(self)@.input.dropped_before(keep_from as int),
                ..old(self)@
            }),
    {
        self.input.drop_before(keep_from);
    }

    /// The tail sample at index `i`.
    pub fn tail_sample(&self, i: usize) -> (s: T)
        requires
            i < self@.tail.len(),
        ensures
            s == self@.tail[i as int],
    {
        self.tail[i]
    }

    /// Replaces the tail sample at index `i`.
    pub fn set_tail_sample(&mut self, i: usize, s: T)
        requires
            old(self)@.wf(),
            i < old(self)@.tail.len(),
        ensures
            final(self)@.wf(),
            final(self)@ == (WsolaView { tail: old(self)@.tail.update(i as int, s), ..old(self)@ }),
    {
        self.tail.set(i, s);
    }

    /// Queues one finalized output sample.
    pub fn push_output(&mut self, sample: T)
        requires
            old(self)@.wf(),
        ensures
            final(self)@.wf(),
            final(self)@ == (WsolaView {
                out_hold: QueueView {
                    samples: old(self)@.out_hold.samples.push(sample),
                    ..old(self)@.out_hold
                },
                ..old(self)@
            }),
    {
        self.out_hold.push(sample);
    }

    /// Finalized output samples (not frames) not yet handed back.
    pub fn held_len(&self) -> (n: usize)
        ensures
            n == self@.out_hold.samples.len(),
    {
        self.out_hold.len()
    }

    /// Whether a first grain has primed the tail.
    pub fn is_primed(&self) -> (b: bool)
        ensures
            b == self@.primed,
    {
        self.primed
    }

    /// Records that a grain has primed the tail.
    pub fn prime(&mut self)
        requires
            old(self)@.wf(),
        ensures
            final(self)@.wf(),
            final(self)@ == (WsolaView { primed: true, ..old(self)@ }),
    {
        self.primed = true;
    }

    /// Hands finalized output to the caller: see [`OutputQueue::drain_into`].
    pub fn drain(&mut self, output: &mut [T]) -> (n: usize)
        requires
            old(self)@.wf(),
        ensures
            final(self)@.wf(),
            n as int == old(self)@.out_hold.drain_count(old(output)@.len() as int),
            final(output)@ == old(self)@.out_hold.samples.subrange(
                0,
                n * old(self)@.format.channels,
            ) + old(output)@.subrange(n * old(self)@.format.channels, old(output)@.len() as int),
            final(self)@ == (WsolaView {
                out_hold: QueueView {
                    samples: old(self)@.out_hold.samples.subrange(
                        n * old(self)@.format.channels,
                        old(self)@.out_hold.samples.len() as int,
                    ),
                    ..old(self)@.out_hold
                },
                ..old(self)@
            }),
    {
        self.out_hold.drain_into(output)
    }

    /// Writes remaining output after the last input block. Finalized output is
    /// drained first; once none is left, the tail of the last grain is finalized
    /// once (and the tail silenced); after that there is nothing more. With
    /// another format or no room for a whole frame it does nothing.
    pub fn flush(&mut self, output: &mut [T], sample_rate: u32, channels: usize, zero: T) -> (n: usize)
        requires
            old(self)@.wf(),
        ensures
            final(self)@.wf(),
            final(self)@.format == old(self)@.format,
            final(self)@.geometry == old(self)@.geometry,
            final(self)@.input == old(self)@.input,
            !old(self)@.matches(sample_rate, channels) || old(output)@.len() as int / channels as int
                == 0 ==> n == 0 && final(self)@ == old(self)@ && final(output)@ == old(output)@,
            (old(self)@.matches(sample_rate, channels) && old(output)@.len() as int / channels as int
                > 0) ==> {
                let held = if old(self)@.out_hold.samples.len() > 0 {
                    old(self)@.out_hold.samples
                } else if old(self)@.primed {
                    old(self)@.tail
                } else {
                    Seq::<T>::empty()
                };
                let ch = channels as int;
                let cap = old(output)@.len() as int / channels as int;
                let count = if cap <= held.len() as int / ch {
                    cap as int
                } else {
                    held.len() as int / ch
                };
                &&& n == count
                &&& final(output)@ == held.subrange(0, count * ch) + old(output)@.subrange(
                    count * ch,
                    old(output)@.len() as int,
                )
                &&& final(self)@.out_hold.samples == held.subrange(count * ch, held.len() as int)
                &&& final(self)@.primed == (old(self)@.primed && old(self)@.out_hold.samples.len()
                    > 0)
                &&& (old(self)@.out_hold.samples.len() == 0 && old(self)@.primed) ==> final(self)@.tail
                    == Seq::new(old(self)@.tail.len(), |i: int| zero)
                &&& !(old(self)@.out_hold.samples.len() == 0 && old(self)@.primed) ==> final(self)@.tail
                    == old(self)@.tail
            },
    {
        if !self.format.matches(sample_rate, channels) {
            return 0;
        }
        let capacity = output.len() / channels;
        if capacity == 0 {
            return 0;
        }
        if !self.out_hold.is_empty() {
            return self.out_hold.drain_into(output);
        }
        if self.primed {
            self.out_hold.push_all(self.tail.as_slice());
            silence(&mut self.tail, zero);
            self.primed = false;
            return self.out_hold.drain_into(output);
        }
        0
    }

    /// Clears all stream state so the stream behaves like a freshly built one.
    pub fn reset(&mut self, zero: T)
        requires
            old(self)@.wf(),
        ensures
            final(self)@.wf(),
            final(self)@.is_fresh(zero),
            final(self)@.format == old(self)@.format,
            final(self)@.geometry == old(self)@.geometry,
            final(self)@.tail.len() == old(self)@.tail.len(),
    {
        self.input.clear();
        silence(&mut self.tail, zero);
        self.out_hold.clear();
        self.primed = false;
    }
}

/// Reset behaves like a fresh build: two well-formed fresh streams of the same
/// format and geometry hold the same state, whether one was just built and the
/// other reset.
pub proof fn lemma_fresh_streams_agree<T>(a: WsolaView<T>, b: WsolaView<T>, zero: T)
    requires
        a.wf(),
        b.wf(),
        a.is_fresh(zero),
        b.is_fresh(zero),
        a.format == b.format,
        a.geometry == b.geometry,
    ensures
        a == b,
{
    assert(a.input == b.input);
    assert(a.tail =~= b.tail);
    assert(a.out_hold.samples =~= b.out_hold.samples);
    assert(a.out_hold =~= b.out_hold);
}

} // verus!

//! Stream bookkeeping of the Signalsmith-backed stretcher.
//!
//! The phase-vocoder itself is an outside engine; what it is built with, which
//! frames a `process` call hands it, and how its tail is drained by `flush` are
//! decided here. A `process` call only works on the format the stretcher was
//! built for; after it, the engine's output latency is the tail still to be
//! flushed, and each `flush` hands over as much of that tail as fits.
use vstd::prelude::*;
use crate::format::{FormatView, StreamFormat, zero_channels_message, zero_sample_rate_message};
use crate::stretcher::{lemma_frames_of_counts_whole_frames, lemma_min_int_is_the_smaller, LatencyFrames, TimeStretcherCapabilities, min_int};

verus! {

broadcast use vstd::string::group_string_axioms;

/// The error for an FFT block shorter than 4 samples.
pub open spec fn block_too_short_message() -> Seq<char> {
    "block length must be at least 4 samples"@
}

/// How the underlying engine is to be built.
#[derive(Debug, Clone, Copy, PartialEq, Eq, Structural)]
pub enum StretchSetup {
    /// The engine's default preset for the sample rate.
    PresetDefault { channels: u32, sample_rate: u32 },
    /// An explicit FFT block length and interval (samples).
    Blocks { channels: u32, block_length: usize, interval: usize },
}

/// The interval used with an explicit block: a quarter of the block (4x
/// overlap), at least 1.
pub open spec fn block_interval(block_length: usize) -> usize {
    if block_length / 4 >= 1 {
        (block_length / 4) as usize
    } else {
        1
    }
}

/// Stream bookkeeping of a Signalsmith-backed stretcher: its fixed format, how
/// its engine is built, and the tail frames still to flush.
pub struct SignalSmithStream {
    format: StreamFormat,
    setup: StretchSetup,
    tail_frames_remaining: usize,
}

/// The abstract value of a [`SignalSmithStream`].
pub struct StreamView {
    pub format: FormatView,
    pub setup: StretchSetup,
    pub tail: nat,
}

impl View for SignalSmithStream {
    type V = StreamView;

    closed spec fn view(&self) -> StreamView {
        StreamView {
            format: self.format@,
            setup: self.setup,
            tail: self.tail_frames_remaining as nat,
        }
    }
}

/// Frames a `flush` with room for `capacity` frames hands over from `tail`.
pub open spec fn flushed(tail: nat, capacity: nat) -> nat {
    if tail <= capacity {
        tail
    } else {
        capacity
    }
}

/// Total frames handed over by `k` successive flushes of room `capacity`,
/// starting from `tail`.
pub open spec fn flushed_total(tail: nat, capacity: nat, k: nat) -> nat
    decreases k,
{
    if k == 0 {
        0
    } else {
        flushed(tail, capacity) + flushed_total(
            (tail - flushed(tail, capacity)) as nat,
            capacity,
            (k - 1) as nat,
        )
    }
}

impl SignalSmithStream {
    #[verifier::type_invariant]
    closed spec fn valid(self) -> bool {
        self.format@.channels > 0
    }

    /// A stretcher built with the engine's default preset for the sample rate.
    /// Rejects a zero sample rate, then a zero channel count.
    pub fn preset(sample_rate: u32, channels: usize) -> (r: Result<Self, String>)
        ensures
            sample_rate == 0 ==> (r matches Err(e) && e@ == zero_sample_rate_message()),
            sample_rate > 0 && channels == 0 ==> (r matches Err(e) && e@
                == zero_channels_message()),
            sample_rate > 0 && channels > 0 ==> (r matches Ok(s) && s@ == (StreamView {
                format: FormatView { sample_rate: sample_rate as nat, channels: channels as nat },
                setup: StretchSetup::PresetDefault { channels: channels as u32, sample_rate },
                tail: 0,
            })),
    {
        let format = match StreamFormat::new(sample_rate, channels) {
            Ok(f) => f,
            Err(e) => {
                return Err(e);
            },
        };
        let engine_channels = #[verifier::truncate] (channels as u32);
        Ok(
            SignalSmithStream {
                format,
                setup: StretchSetup::PresetDefault { channels: engine_channels, sample_rate },
                tail_frames_remaining: 0,
            },
        )
    }

    /// A stretcher built with an explicit FFT `block_length` and an interval of a
    /// quarter block. Rejects a zero sample rate, then a zero channel count, then
    /// a block shorter than 4 samples.
    pub fn with_block_length(sample_rate: u32, channels: usize, block_length: usize) -> (r: Result<
        Self,
        String,
    >)
        ensures
            sample_rate == 0 ==> (r matches Err(e) && e@ == zero_sample_rate_message()),
            sample_rate > 0 && channels == 0 ==> (r matches Err(e) && e@
                == zero_channels_message()),
            sample_rate > 0 && channels > 0 && block_length < 4 ==> (r matches Err(e) && e@
                == block_too_short_message()),
            sample_rate > 0 && channels > 0 && block_length >= 4 ==> (r matches Ok(s) && s@ == (
            StreamView {
                format: FormatView { sample_rate: sample_rate as nat, channels: channels as nat },
                setup: StretchSetup::Blocks {
                    channels: channels as u32,
                    block_length,
                    interval: block_interval(block_length),
                },
                tail: 0,
            })),
            r matches Ok(s) ==> (s@.setup matches StretchSetup::Blocks { interval, .. } && 4
                * interval <= block_length < 4 * interval + 4),
    {
        proof {
            lemma_block_interval_is_a_quarter(block_length);
        }
        let format = match StreamFormat::new(sample_rate, channels) {
            Ok(f) => f,
            Err(e) => {
                return Err(e);
            },
        };
        if block_length < 4 {
            return Err("block length must be at least 4 samples".to_string());
        }
        let engine_channels = #[verifier::truncate] (channels as u32);
        let quarter = block_length / 4;
        let interval = if quarter >= 1 {
            quarter
        } else {
            1
        };
        Ok(
            SignalSmithStream {
                format,
                setup: StretchSetup::Blocks { channels: engine_channels, block_length, interval },
                tail_frames_remaining: 0,
            },
        )
    }

    /// How the engine is to be built.
    pub fn setup(&self) -> (s: StretchSetup)
        ensures
            s == self@.setup,
    {
        self.setup
    }

    /// The format the stretcher was built for.
    pub fn format(&self) -> (f: StreamFormat)
        ensures
            f@ == self@.format,
    {
        self.format
    }

    /// Tail frames still to be flushed.
    pub fn tail_frames_remaining(&self) -> (n: usize)
        ensures
            n == self@.tail,
    {
        self.tail_frames_remaining
    }

    /// The whole input frames and the output capacity (frames) a `process` call
    /// works with, or `None` when it must do nothing: another format, no whole
    /// input frame, or no room for a whole output frame.
    pub fn process_frames(
        &self,
        input_len: usize,
        output_len: usize,
        sample_rate: u32,
        channels: usize,
    ) -> (r: Option<(usize, usize)>)
        ensures
            r is None <==> !(self@.format.sample_rate == sample_rate && self@.format.channels
                == channels) || input_len / channels == 0 || output_len / channels == 0,
            r matches Some(p) ==> p.0 == input_len / channels && p.1 == output_len / channels
                && p.0 >= 1 && p.1 >= 1,
    {
        proof {
            use_type_invariant(self);
        }
        if !self.format.matches(sample_rate, channels) {
            return None;
        }
        let input_frames = input_len / channels;
        let capacity = output_len / channels;
        if input_frames == 0 || capacity == 0 {
            return None;
        }
        Some((input_frames, capacity))
    }

    /// Input frames a `process` call consumes: all of them, unless the speed
    /// limits the call to `speed_limit` frames for the output room it has.
    pub fn consumed_frames(input_frames: usize, speed_limit: usize) -> (n: usize)
        ensures
            n == min_int(input_frames as int, speed_limit as int),
            n <= input_frames,
            n <= speed_limit,
            n == input_frames || n == speed_limit,
    {
        proof {
            lemma_min_int_is_the_smaller(input_frames as int, speed_limit as int);
        }
        if input_frames <= speed_limit {
            input_frames
        } else {
            speed_limit
        }
    }

    /// Output frames a `process` call writes: the speed-scaled count, at least
    /// one frame and at most the output room.
    pub fn written_frames(scaled: usize, capacity: usize) -> (n: usize)
        requires
            capacity >= 1,
        ensures
            n == if scaled < 1 {
                1
            } else if scaled > capacity {
                capacity as int
            } else {
                scaled as int
            },
            1 <= n <= capacity,
    {
        if scaled < 1 {
            1
        } else if scaled > capacity {
            capacity
        } else {
            scaled
        }
    }

    /// After a `process` call, the engine's output latency is the tail to flush.
    pub fn record_tail(&mut self, output_latency: usize)
        ensures
            final(self)@ == (StreamView { tail: output_latency as nat, ..old(self)@ }),
    {
        proof {
            use_type_invariant(&*self);
        }
        self.tail_frames_remaining = output_latency;
    }

    /// Frames a `flush` into `output_len` samples hands over: as much of the tail
    /// as fits in whole frames, which then leaves the tail. Another format hands
    /// over nothing.
    pub fn flush(&mut self, output_len: usize, sample_rate: u32, channels: usize) -> (n: usize)
        ensures
            !(old(self)@.format.sample_rate == sample_rate && old(self)@.format.channels
                == channels) ==> n == 0 && final(self)@ == old(self)@,
            old(self)@.format.sample_rate == sample_rate && old(self)@.format.channels == channels
                ==> {
                &&& n == flushed(old(self)@.tail, (output_len / channels) as nat)
                &&& n * channels <= output_len
                &&& n <= old(self)@.tail
                &&& n == old(self)@.tail || n == output_len / channels
                &&& final(self)@ == after_flushes(old(self)@, (output_len / channels) as nat, 1)
                &&& final(self)@ == (StreamView {
                    tail: (old(self)@.tail - n) as nat,
                    ..old(self)@
                })
            },
    {
        proof {
            reveal_with_fuel(after_flushes, 2);
        }
        proof {
            use_type_invariant(&*self);
        }
        if !self.format.matches(sample_rate, channels) {
            return 0;
        }
        proof {
            lemma_flush_fits_output(old(self)@.tail, (output_len / channels) as nat);
            lemma_frames_of_counts_whole_frames(output_len as int, channels as int);
            vstd::arithmetic::mul::lemma_mul_inequality(
                flushed(old(self)@.tail, (output_len / channels) as nat) as int,
                (output_len / channels) as int,
                channels as int,
            );
        }
        let capacity = output_len / channels;
        let frames = if self.tail_frames_remaining <= capacity {
            self.tail_frames_remaining
        } else {
            capacity
        };
        if frames == 0 {
            return 0;
        }
        self.tail_frames_remaining = self.tail_frames_remaining - frames;
        frames
    }

    /// Forgets the tail; the engine itself is reset alongside.
    pub fn reset(&mut self)
        ensures
            final(self)@ == (StreamView { tail: 0, ..old(self)@ }),
    {
        proof {
            use_type_invariant(&*self);
        }
        self.tail_frames_remaining = 0;
    }

    /// The engine's delay: its input latency and its output latency.
    pub fn latency(input_latency: usize, output_latency: usize) -> (l: LatencyFrames)
        ensures
            l == (LatencyFrames { input: input_latency, output: output_latency, processing: 0 }),
    {
        LatencyFrames::new(input_latency, output_latency, 0)
    }

    /// A general-purpose stretcher and pitch shifter: everything, in realtime.
    pub fn capabilities() -> (caps: TimeStretcherCapabilities)
        ensures
            caps == (TimeStretcherCapabilities {
                realtime: true,
                pitch_shift: true,
                time_stretch: true,
                independent_pitch_and_speed: true,
            }),
            caps.autotune_capable(),
    {
        TimeStretcherCapabilities {
            realtime: true,
            pitch_shift: true,
            time_stretch: true,
            independent_pitch_and_speed: true,
        }
    }
}

/// The stream after `k` successive flushes with room for `capacity` frames in
/// its built-for format.
pub open spec fn after_flushes(v: StreamView, capacity: nat, k: nat) -> StreamView
    decreases k,
{
    if k == 0 {
        v
    } else {
        after_flushes(
            StreamView { tail: (v.tail - flushed(v.tail, capacity)) as nat, ..v },
            capacity,
            (k - 1) as nat,
        )
    }
}

/// Flushing a stream drains its tail exactly: the `k`-th of successive flushes
/// with room for `capacity >= 1` frames returns the smaller of the room and what
/// is left of the tail; once `k * capacity` covers the tail, those flushes have
/// returned the whole tail and the stream has none left, so later flushes return 0.
pub proof fn lemma_stream_flushes_drain_tail(v: StreamView, capacity: nat, k: nat)
    requires
        capacity >= 1,
    ensures
        after_flushes(v, capacity, k).tail == v.tail - flushed_total(v.tail, capacity, k),
        after_flushes(v, capacity, k).format == v.format,
        after_flushes(v, capacity, k).setup == v.setup,
        k * capacity >= v.tail ==> after_flushes(v, capacity, k).tail == 0,
        k * capacity >= v.tail ==> flushed_total(v.tail, capacity, k) == v.tail,
    decreases k,
{
    lemma_flush_drains_tail(v.tail, capacity, k);
    if k > 0 {
        let w = StreamView { tail: (v.tail - flushed(v.tail, capacity)) as nat, ..v };
        lemma_stream_flushes_drain_tail(w, capacity, (k - 1) as nat);
        lemma_flush_drains_tail(w.tail, capacity, (k - 1) as nat);
    }
}

/// One flush hands over as many tail frames as fit: never more than the room
/// in the output or than the tail, and either the whole tail or a full output.
pub proof fn lemma_flush_fits_output(tail: nat, capacity: nat)
    ensures
        flushed(tail, capacity) <= capacity,
        flushed(tail, capacity) <= tail,
        flushed(tail, capacity) == tail || flushed(tail, capacity) == capacity,
{
}

/// An explicit block overlaps 4x: its interval is a quarter of the block,
/// rounded down (so four intervals fit in the block and a fifth would not), and
/// never below 1.
pub proof fn lemma_block_interval_is_a_quarter(block_length: usize)
    ensures
        block_interval(block_length) >= 1,
        block_length >= 4 ==> 4 * block_interval(block_length) <= block_length < 4
            * block_interval(block_length) + 4,
        block_length < 4 ==> block_interval(block_length) == 1,
{
}

/// Flushing drains the tail exactly: with room for at least one frame, a flush
/// hands over nothing only once the tail is empty, never more than the tail,
/// and enough flushes hand over the whole tail and nothing more.
pub proof fn lemma_flush_drains_tail(tail: nat, capacity: nat, k: nat)
    requires
        capacity >= 1,
    ensures
        (flushed(tail, capacity) == 0) <==> (tail == 0),
        flushed(tail, capacity) <= tail,
        k * capacity >= tail ==> flushed_total(tail, capacity, k) == tail,
        flushed_total(tail, capacity, k) <= tail,
    decreases k,
{
    if k > 0 {
        let rest = (tail - flushed(tail, capacity)) as nat;
        lemma_flush_drains_tail(rest, capacity, (k - 1) as nat);
        if k * capacity >= tail {
            assert((k - 1) * capacity + capacity == k * capacity) by (nonlinear_arith);
            assert((k - 1) as nat * capacity >= rest);
        }
    }
}

} // verus!

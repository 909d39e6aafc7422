//! The stretcher contract's value types and the pass-through stretcher.
//!
//! Audio is interleaved: one frame is `channels` consecutive samples, and every
//! frame count is derived as `len / channels`. The types here carry no samples of
//! their own, so the pass-through stretcher is generic over the sample type.
use vstd::prelude::*;

verus! {

/// Whole frames held by `len` interleaved samples of `channels` channels.
pub open spec fn frames_of(len: int, channels: int) -> int {
    len / channels
}

/// `frames_of` counts whole frames: `len` samples hold `frames_of(len, ch)`
/// complete frames and fewer samples than one more frame would need, so `k`
/// whole frames of samples count as exactly `k` frames.
pub proof fn lemma_frames_of_counts_whole_frames(len: int, channels: int)
    requires
        len >= 0,
        channels > 0,
    ensures
        frames_of(len, channels) >= 0,
        frames_of(len, channels) * channels <= len < (frames_of(len, channels) + 1) * channels,
        len % channels == 0 ==> frames_of(len, channels) * channels == len,
{
    vstd::arithmetic::div_mod::lemma_fundamental_div_mod(len, channels);
    vstd::arithmetic::div_mod::lemma_mod_pos_bound(len, channels);
    vstd::arithmetic::div_mod::lemma_div_pos_is_pos(len, channels);
    vstd::arithmetic::mul::lemma_mul_is_commutative(channels, len / channels);
    vstd::arithmetic::mul::lemma_mul_is_distributive_add_other_way(channels, len / channels, 1);
}

/// `k` whole frames of `channels` samples each count as `k` frames.
pub proof fn lemma_frames_of_whole(k: int, channels: int)
    requires
        k >= 0,
        channels > 0,
    ensures
        frames_of(k * channels, channels) == k,
{
    vstd::arithmetic::div_mod::lemma_div_multiples_vanish(k, channels);
    vstd::arithmetic::mul::lemma_mul_is_commutative(k, channels);
}

/// The smaller of two integers.
pub open spec fn min_int(a: int, b: int) -> int {
    if a <= b {
        a
    } else {
        b
    }
}

/// `min_int` is the smaller of its arguments: at most each, and one of them.
pub proof fn lemma_min_int_is_the_smaller(a: int, b: int)
    ensures
        min_int(a, b) <= a,
        min_int(a, b) <= b,
        min_int(a, b) == a || min_int(a, b) == b,
{
}

/// What a stretcher can do, so callers can pick one that fits (e.g. realtime
/// autotune needs independent pitch and speed control with low latency).
#[derive(Debug, Clone, Copy, PartialEq, Eq, Structural)]
pub struct TimeStretcherCapabilities {
    pub realtime: bool,
    pub pitch_shift: bool,
    pub time_stretch: bool,
    pub independent_pitch_and_speed: bool,
}

impl TimeStretcherCapabilities {
    /// The pass-through profile: realtime, and no transform of any kind.
    pub fn noop() -> (caps: Self)
        ensures
            caps == (TimeStretcherCapabilities {
                realtime: true,
                pitch_shift: false,
                time_stretch: false,
                independent_pitch_and_speed: false,
            }),
    {
        TimeStretcherCapabilities {
            realtime: true,
            pitch_shift: false,
            time_stretch: false,
            independent_pitch_and_speed: false,
        }
    }

    /// Realtime autotune needs a realtime stretcher that shifts pitch
    /// independently of speed.
    pub open spec fn autotune_capable(self) -> bool {
        self.realtime && self.pitch_shift && self.independent_pitch_and_speed
    }

    /// Whether this stretcher can drive realtime autotune.
    pub fn supports_realtime_autotune(self) -> (b: bool)
        ensures
            b == self.autotune_capable(),
    {
        self.realtime && self.pitch_shift && self.independent_pitch_and_speed
    }
}

/// How much input was consumed and output produced by a single `process` call.
#[derive(Debug, Clone, Copy, PartialEq, Eq, Structural)]
pub struct TimeStretchProcessResult {
    pub input_frames_consumed: usize,
    pub output_frames_written: usize,
}

impl TimeStretchProcessResult {
    /// The "did nothing" result.
    pub open spec fn nothing() -> Self {
        TimeStretchProcessResult { input_frames_consumed: 0, output_frames_written: 0 }
    }
}

impl Default for TimeStretchProcessResult {
    fn default() -> (r: Self)
        ensures
            r == TimeStretchProcessResult::nothing(),
    {
        TimeStretchProcessResult { input_frames_consumed: 0, output_frames_written: 0 }
    }
}

/// A stretcher's delay in frames, split as the engine sums it across the
/// pipeline: the input side, the output side, and any extra processing block.
#[derive(Debug, Clone, Copy, PartialEq, Eq, Structural)]
pub struct LatencyFrames {
    pub input: usize,
    pub output: usize,
    pub processing: usize,
}

impl LatencyFrames {
    /// A delay of `input` frames on the input side and `output` on the output side.
    pub fn new(input: usize, output: usize, processing: usize) -> (l: Self)
        ensures
            l == (LatencyFrames { input, output, processing }),
    {
        LatencyFrames { input, output, processing }
    }

    /// No delay at all.
    pub fn zero() -> (l: Self)
        ensures
            l == (LatencyFrames { input: 0, output: 0, processing: 0 }),
    {
        LatencyFrames { input: 0, output: 0, processing: 0 }
    }
}

/// A pass-through stretcher: copies input to output unchanged. Useful as a
/// default and in tests.
#[derive(Debug, Clone, Copy, PartialEq, Eq, Structural)]
pub struct NoopTimeStretcher;

impl NoopTimeStretcher {
    /// The samples of `output` after a pass-through of `frames` frames from `input`.
    pub open spec fn passed_through<T>(
        input: Seq<T>,
        output: Seq<T>,
        frames: int,
        channels: int,
    ) -> Seq<T> {
        input.subrange(0, frames * channels) + output.subrange(frames * channels, output.len() as int)
    }

    /// Copies `min(input frames, output frames)` whole frames from `input` to the
    /// front of `output`, leaving the rest of `output` alone. With no channels it
    /// does nothing.
    pub fn process<T: Copy>(
        &mut self,
        input: &[T],
        output: &mut [T],
        sample_rate: u32,
        channels: usize,
    ) -> (r: TimeStretchProcessResult)
        ensures
            channels == 0 ==> r == TimeStretchProcessResult::nothing() && final(output)@ == old(
                output,
            )@,
            channels > 0 ==> {
                let frames = min_int(
                    frames_of(input@.len() as int, channels as int),
                    frames_of(old(output)@.len() as int, channels as int),
                );
                &&& r.input_frames_consumed == frames
                &&& r.output_frames_written == frames
                &&& r.input_frames_consumed * channels <= input@.len()
                &&& r.input_frames_consumed * channels <= old(output)@.len()
                &&& (r.input_frames_consumed + 1) * channels > input@.len()
                    || (r.input_frames_consumed + 1) * channels > old(output)@.len()
                &&& final(output)@ == Self::passed_through(
                    input@,
                    old(output)@,
                    frames,
                    channels as int,
                )
            },
    {
        if channels == 0 {
            return TimeStretchProcessResult::default();
        }
        proof {
            lemma_frames_of_counts_whole_frames(input@.len() as int, channels as int);
            lemma_frames_of_counts_whole_frames(output@.len() as int, channels as int);
        }
        let in_frames = input.len() / channels;
        let out_frames = output.len() / channels;
        let frames = if in_frames <= out_frames {
            in_frames
        } else {
            out_frames
        };
        proof {
            vstd::arithmetic::div_mod::lemma_fundamental_div_mod(
                input@.len() as int,
                channels as int,
            );
            vstd::arithmetic::div_mod::lemma_fundamental_div_mod(
                output@.len() as int,
                channels as int,
            );
            vstd::arithmetic::mul::lemma_mul_inequality(
                frames as int,
                in_frames as int,
                channels as int,
            );
            vstd::arithmetic::mul::lemma_mul_inequality(
                frames as int,
                out_frames as int,
                channels as int,
            );
            vstd::arithmetic::mul::lemma_mul_is_commutative(frames as int, channels as int);
            vstd::arithmetic::mul::lemma_mul_is_commutative(in_frames as int, channels as int);
            vstd::arithmetic::mul::lemma_mul_is_commutative(out_frames as int, channels as int);
        }
        let samples = frames * channels;
        let ghost before = output@;
        let mut i: usize = 0;
        while i < samples
            invariant
                samples <= input@.len(),
                samples <= before.len(),
                i <= samples,
                output@.len() == before.len(),
                forall|k: int| 0 <= k < i ==> output@[k] == input@[k],
                forall|k: int| i <= k < before.len() ==> output@[k] == before[k],
            decreases samples - i,
        {
            output[i] = input[i];
            i = i + 1;
        }
        assert(output@ =~= Self::passed_through(input@, before, frames as int, channels as int));
        TimeStretchProcessResult { input_frames_consumed: frames, output_frames_written: frames }
    }

    /// A pass-through has no tail: nothing is written and no frame is reported.
    pub fn flush<T>(&mut self, output: &mut [T], sample_rate: u32, channels: usize) -> (n: usize)
        ensures
            n == 0,
            final(output)@ == old(output)@,
    {
        0
    }

    /// A pass-through keeps no state.
    pub fn reset(&mut self)
        ensures
            *final(self) == *old(self),
    {
    }

    /// A pass-through adds no delay.
    pub fn latency(&self) -> (l: LatencyFrames)
        ensures
            l == (LatencyFrames { input: 0, output: 0, processing: 0 }),
    {
        LatencyFrames::zero()
    }

    /// Realtime, and no transform of any kind.
    pub fn capabilities(&self) -> (caps: TimeStretcherCapabilities)
        ensures
            caps == (TimeStretcherCapabilities {
                realtime: true,
                pitch_shift: false,
                time_stretch: false,
                independent_pitch_and_speed: false,
            }),
    {
        TimeStretcherCapabilities::noop()
    }
}

} // verus!

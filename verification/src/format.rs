//! The one stream format a stretcher is built for.
//!
//! Every stretcher is built for a fixed `(sample_rate, channels)`; a caller that
//! changes format must build a new stretcher, and a call made with another format
//! does nothing.
use vstd::prelude::*;

verus! {

broadcast use vstd::string::group_string_axioms;

/// The error for a zero sample rate.
pub open spec fn zero_sample_rate_message() -> Seq<char> {
    "sample rate must be greater than zero"@
}

/// The error for a zero channel count.
pub open spec fn zero_channels_message() -> Seq<char> {
    "channel count must be greater than zero"@
}

/// A validated stream format: a sample rate and a channel count, both non-zero.
#[derive(Debug, Clone, Copy, PartialEq, Eq, Structural)]
pub struct StreamFormat {
    sample_rate: u32,
    channels: usize,
}

/// The abstract value of a [`StreamFormat`].
pub struct FormatView {
    pub sample_rate: nat,
    pub channels: nat,
}

impl View for StreamFormat {
    type V = FormatView;

    closed spec fn view(&self) -> FormatView {
        FormatView { sample_rate: self.sample_rate as nat, channels: self.channels as nat }
    }
}

impl StreamFormat {
    #[verifier::type_invariant]
    closed spec fn valid(self) -> bool {
        self.sample_rate > 0 && self.channels > 0
    }

    /// Validates a format: the sample rate is checked first, then the channel count.
    pub fn new(sample_rate: u32, channels: usize) -> (r: Result<StreamFormat, String>)
        ensures
            sample_rate == 0 ==> (r matches Err(e) && e@ == zero_sample_rate_message()),
            sample_rate > 0 && channels == 0 ==> (r matches Err(e) && e@
                == zero_channels_message()),
            sample_rate > 0 && channels > 0 ==> (r matches Ok(f) && f@ == (FormatView {
                sample_rate: sample_rate as nat,
                channels: channels as nat,
            })),
    {
        if sample_rate == 0 {
            return Err("sample rate must be greater than zero".to_string());
        }
        if channels == 0 {
            return Err("channel count must be greater than zero".to_string());
        }
        Ok(StreamFormat { sample_rate, channels })
    }

    pub fn sample_rate(&self) -> (r: u32)
        ensures
            r == self@.sample_rate,
            r > 0,
    {
        proof {
            use_type_invariant(self);
        }
        self.sample_rate
    }

    pub fn channels(&self) -> (r: usize)
        ensures
            r == self@.channels,
            r > 0,
    {
        proof {
            use_type_invariant(self);
        }
        self.channels
    }

    /// Whether a call's `(sample_rate, channels)` is the format this was built for.
    pub fn matches(&self, sample_rate: u32, channels: usize) -> (b: bool)
        ensures
            b == (self@.sample_rate == sample_rate && self@.channels == channels),
    {
        self.sample_rate == sample_rate && self.channels == channels
    }

    /// Whole frames held by `len` interleaved samples of this format.
    pub fn frames(&self, len: usize) -> (n: usize)
        ensures
            n == len as int / self@.channels as int,
    {
        proof {
            use_type_invariant(self);
        }
        len / self.channels
    }
}

} // verus!

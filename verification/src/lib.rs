//! `phaserack` — time-stretching and pitch-shifting for an audio engine.
//!
//! A stretcher changes a signal's length and/or pitch. This library holds the
//! stretchers' contract types, the pass-through stretcher, and the verified
//! stream bookkeeping of the WSOLA, PSOLA and Signalsmith-backed stretchers:
//! formats, interleaved frame buffers addressed by absolute frame, grain
//! geometry, pitch-mark selection, and tail draining.

pub mod buffer;
pub mod format;
pub mod psola;
pub mod signalsmith;
pub mod stretcher;
pub mod wsola;

pub use psola::PsolaMode;
pub use stretcher::{
    LatencyFrames, NoopTimeStretcher, TimeStretchProcessResult, TimeStretcherCapabilities,
};

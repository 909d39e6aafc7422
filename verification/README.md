# phaserack

Time-stretching and pitch-shifting for an audio engine, as a Verus-verified
library plus an ordinary Rust layer.

- `src/` — the verified library:
  - `stretcher`: capability flags, the per-call result, latency in frames, and the
    pass-through stretcher (generic over the sample type).
  - `format`: the fixed `(sample_rate, channels)` a stretcher is built for.
  - `buffer`: interleaved frame buffers addressed by absolute frame — pending
    input, the overlap-add accumulator, and finalized output — with their laws
    (appended frames read back, trimming keeps reachable frames, pass-through is
    sample-exact, finalizing loses nothing).
  - `wsola`: WSOLA grain geometry and stream state (input, tail, output, flush).
  - `psola`: PSOLA modes and capabilities, pitch marks, nearest-mark choice, the
    grain-period range, and stream state.
  - `signalsmith`: how the Signalsmith engine is built, frame accounting of a
    `process` call, and tail draining by `flush`.
- `app/` — the `TimeStretcher` trait over interleaved `f32`, the floating-point
  DSP of each backend (windows, similarity search, grain mixing, speed split),
  and the calls into `signalsmith-stretch`, `pitchrack` and `sinerack`.
- `tests/` — tests of the library.

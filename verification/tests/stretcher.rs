use phaserack::format::StreamFormat;
use phaserack::{LatencyFrames, NoopTimeStretcher, TimeStretchProcessResult, TimeStretcherCapabilities};

#[test]
fn noop_capabilities_are_passthrough_only() {
    let caps = TimeStretcherCapabilities::noop();
    assert!(caps.realtime);
    assert!(!caps.pitch_shift);
    assert!(!caps.time_stretch);
    assert!(!caps.independent_pitch_and_speed);
    assert!(!caps.supports_realtime_autotune());
}

#[test]
fn autotune_needs_realtime_pitch_and_independence() {
    let all = TimeStretcherCapabilities {
        realtime: true,
        pitch_shift: true,
        time_stretch: false,
        independent_pitch_and_speed: true,
    };
    assert!(all.supports_realtime_autotune());
    assert!(!TimeStretcherCapabilities { realtime: false, ..all }.supports_realtime_autotune());
    assert!(!TimeStretcherCapabilities { pitch_shift: false, ..all }.supports_realtime_autotune());
    assert!(!TimeStretcherCapabilities {
        independent_pitch_and_speed: false,
        ..all
    }
    .supports_realtime_autotune());
}

#[test]
fn process_result_default_is_nothing() {
    let r = TimeStretchProcessResult::default();
    assert_eq!(r.input_frames_consumed, 0);
    assert_eq!(r.output_frames_written, 0);
}

#[test]
fn noop_copies_min_whole_frames() {
    let mut st = NoopTimeStretcher;
    let input = [1.0f32, 2.0, 3.0, 4.0, 5.0, 6.0, 7.0];
    let mut output = [0.0f32; 5];
    let r = st.process(&input, &mut output, 48_000, 2);
    // 3 input frames, 2 output frames → 2 frames copied; the odd trailing slot untouched.
    assert_eq!(r.input_frames_consumed, 2);
    assert_eq!(r.output_frames_written, 2);
    assert_eq!(output, [1.0, 2.0, 3.0, 4.0, 0.0]);
}

#[test]
fn noop_with_no_channels_does_nothing() {
    let mut st = NoopTimeStretcher;
    let input = [1i16, 2, 3];
    let mut output = [9i16; 3];
    let r = st.process(&input, &mut output, 48_000, 0);
    assert_eq!(r, TimeStretchProcessResult::default());
    assert_eq!(output, [9, 9, 9]);
}

#[test]
fn noop_has_no_tail_latency_or_transform() {
    let mut st = NoopTimeStretcher;
    let mut output = [3.0f32; 4];
    assert_eq!(st.flush(&mut output, 44_100, 1), 0);
    assert_eq!(output, [3.0; 4]);
    st.reset();
    assert_eq!(st.latency(), LatencyFrames { input: 0, output: 0, processing: 0 });
    assert_eq!(st.capabilities(), TimeStretcherCapabilities::noop());
}

#[test]
fn format_rejects_zero_rate_then_zero_channels() {
    assert_eq!(
        StreamFormat::new(0, 0).unwrap_err(),
        "sample rate must be greater than zero"
    );
    assert_eq!(
        StreamFormat::new(44_100, 0).unwrap_err(),
        "channel count must be greater than zero"
    );
    let f = StreamFormat::new(44_100, 2).unwrap();
    assert_eq!(f.sample_rate(), 44_100);
    assert_eq!(f.channels(), 2);
    assert!(f.matches(44_100, 2));
    assert!(!f.matches(48_000, 2));
    assert!(!f.matches(44_100, 1));
    assert_eq!(f.frames(7), 3);
}

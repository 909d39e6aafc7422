use phaserack::psola::{
    absolute_marks, local_period, nearest_mark, psola_capabilities, Mark, PeriodRange, PitchMark,
    PsolaStream,
};
use phaserack::{LatencyFrames, PsolaMode};

const SR: u32 = 44_100;

fn sine(freq: f32, frames: usize) -> Vec<f32> {
    (0..frames)
        .map(|n| (2.0 * std::f32::consts::PI * freq * n as f32 / SR as f32).sin())
        .collect()
}

#[test]
fn psola_rejects_bad_format() {
    assert!(PsolaStream::<f32>::new(0, 1, PsolaMode::Realtime).is_err());
    assert!(PsolaStream::<f32>::new(SR, 0, PsolaMode::Offline).is_err());
}

#[test]
fn capabilities_reflect_mode() {
    let rt = psola_capabilities(true, PsolaMode::Realtime);
    assert!(rt.realtime && rt.supports_realtime_autotune());
    let off = psola_capabilities(true, PsolaMode::Offline);
    assert!(!off.realtime);
    assert!(off.pitch_shift && off.independent_pitch_and_speed);
}

#[test]
fn without_a_marker_passes_through() {
    let mut st = PsolaStream::<f32>::new(SR, 1, PsolaMode::Realtime).unwrap();
    let caps = psola_capabilities(false, st.mode());
    assert!(!caps.pitch_shift, "no marker → no pitch shift");
    let input = sine(220.0, 8000);
    let mut out = Vec::new();
    let mut buf = vec![0.0f32; 4096];
    let block = 2048;
    let mut pos = 0;
    while pos < input.len() {
        let end = (pos + block).min(input.len());
        let r = st.process_passthrough(&input[pos..end], &mut buf, SR, 1);
        out.extend_from_slice(&buf[..r.output_frames_written]);
        pos += r.input_frames_consumed.max(1);
    }
    loop {
        let n = st.flush_passthrough(&mut buf, SR, 1);
        if n == 0 {
            break;
        }
        out.extend_from_slice(&buf[..n]);
    }
    assert_eq!(out, input, "pass-through must be sample-exact");
}

#[test]
fn other_format_is_ignored() {
    let mut st = PsolaStream::<f32>::new(SR, 2, PsolaMode::Offline).unwrap();
    let mut out = [1.0f32; 4];
    let r = st.process_passthrough(&[0.5; 4], &mut out, 48_000, 2);
    assert_eq!(r.input_frames_consumed, 0);
    assert_eq!(r.output_frames_written, 0);
    assert_eq!(st.accept_input(&[0.5; 4], SR, 1), None);
    assert_eq!(st.flush_passthrough(&mut out, SR, 1), 0);
    assert_eq!(out, [1.0; 4]);
    assert!(!st.flush_room(4, SR, 1));
    assert!(!st.flush_room(1, SR, 2));
    assert!(st.flush_room(2, SR, 2));
}

fn divide_by_weight(s: i32, w: i32) -> i32 {
    if w > 0 {
        s / w
    } else {
        s
    }
}

#[test]
fn finalize_all_then_drain_and_reset() {
    let mut st = PsolaStream::<i32>::new(SR, 1, PsolaMode::Offline).unwrap();
    st.acc_ensure_covers(0, 3, 0);
    assert_eq!(st.weights().start(), st.acc().start());
    assert_eq!(st.weights().len(), 3);
    let i = st.acc().index_of(1, 0);
    st.acc_set(i, 8);
    let wi = st.weights().index_of(1, 0);
    st.wacc_set(wi, 2);
    st.finalize_all(divide_by_weight);
    assert!(st.is_flushed());
    assert_eq!(st.weights().len(), 0);
    let mut out = [0; 2];
    assert_eq!(st.drain(&mut out), 2);
    assert_eq!(out, [0, 4]);
    assert_eq!(st.drain(&mut out), 1);
    assert_eq!(out, [0, 4]);
    st.reset();
    assert!(!st.is_flushed());
    assert_eq!(st.held_len(), 0);
    assert_eq!(st.input().start(), 0);
    assert_eq!(st.weights().len(), 0);
}

#[test]
fn finalized_frames_are_divided_by_their_window_sum() {
    let normalize = |s: f32, w: f32| s / w.max(0.1);
    let mut st = PsolaStream::<f32>::new(SR, 2, PsolaMode::Realtime).unwrap();
    st.acc_ensure_covers(0, 2, 0.0);
    for c in 0..2 {
        let i = st.acc().index_of(0, c);
        st.acc_set(i, 0.5);
        let i = st.acc().index_of(1, c);
        st.acc_set(i, 0.05);
    }
    let w0 = st.weights().index_of(0, 0);
    st.wacc_set(w0, 0.5);
    // Frame 1 is covered by no window: the floor keeps it from being amplified.
    st.finalize(1, normalize);
    assert!(!st.is_flushed());
    assert_eq!(st.held_len(), 2);
    assert_eq!(st.acc().start(), 1);
    assert_eq!(st.weights().start(), 1);
    st.finalize_all(normalize);
    let mut out = [0.0f32; 4];
    assert_eq!(st.drain(&mut out), 2);
    assert_eq!(&out[..2], &[1.0, 1.0]);
    assert!((out[2] - 0.5).abs() < 1e-6 && (out[3] - 0.5).abs() < 1e-6);
}

#[test]
fn flushing_after_synthesis_only_drains() {
    let mut st = PsolaStream::<i32>::new(SR, 2, PsolaMode::Offline).unwrap();
    st.acc_ensure_covers(0, 5, 0);
    for f in 0..5i64 {
        for c in 0..2usize {
            let i = st.acc().index_of(f, c);
            st.acc_set(i, (10 * f) as i32 + c as i32);
        }
    }
    st.finalize_all(|s, _w| s);
    let mut out = Vec::new();
    let mut counts = Vec::new();
    let mut buf = [0; 5];
    for _ in 0..5 {
        let n = st.drain(&mut buf);
        assert!(st.is_flushed());
        counts.push(n);
        out.extend_from_slice(&buf[..2 * n]);
    }
    assert_eq!(counts, vec![2, 2, 1, 0, 0]);
    assert_eq!(out, vec![0, 1, 10, 11, 20, 21, 30, 31, 40, 41]);
    assert_eq!(st.held_len(), 0);
}

#[test]
fn marks_are_placed_at_absolute_frames() {
    let rel = [
        PitchMark { position: 3, voiced: true },
        PitchMark { position: 7, voiced: false },
    ];
    let marks = absolute_marks(100, &rel);
    assert_eq!(
        marks,
        vec![Mark { pos: 103, voiced: true }, Mark { pos: 107, voiced: false }]
    );
}

fn marks_at(positions: &[i64]) -> Vec<Mark> {
    positions.iter().map(|&pos| Mark { pos, voiced: true }).collect()
}

#[test]
fn nearest_mark_prefers_the_earlier_on_a_tie() {
    let marks = marks_at(&[10, 20, 30]);
    assert_eq!(nearest_mark(&[], 5), None);
    assert_eq!(nearest_mark(&marks, -4), Some(0));
    assert_eq!(nearest_mark(&marks, 14), Some(0));
    assert_eq!(nearest_mark(&marks, 15), Some(0));
    assert_eq!(nearest_mark(&marks, 16), Some(1));
    assert_eq!(nearest_mark(&marks, 20), Some(1));
    assert_eq!(nearest_mark(&marks, 99), Some(2));
}

#[test]
fn period_range_and_local_period() {
    let range = PeriodRange::from_rounded(1, 0);
    assert_eq!(range.min(), 2);
    assert_eq!(range.max(), 3);
    // 44.1 kHz with the default 75..600 Hz F0 range.
    let range = PeriodRange::from_rounded(74, 588);
    assert_eq!(range.latency(), LatencyFrames { input: 1176, output: 0, processing: 0 });
    let marks = marks_at(&[0, 100, 1000, 1001]);
    assert_eq!(local_period(&marks, 0, &range), 100); // spacing to the next mark
    assert_eq!(local_period(&marks, 1, &range), 588); // clamped to the longest period
    assert_eq!(local_period(&marks, 2, &range), 74); // clamped to the shortest period
    assert_eq!(local_period(&marks, 3, &range), 74); // last mark: spacing to the previous one
    assert_eq!(local_period(&marks_at(&[5]), 0, &range), 588); // a lone mark: longest period
    assert_eq!(range.settled_frontier(10_000), 8_824);
    assert_eq!(range.keep_from(500), -676);
}

#[test]
fn psola_reset_matches_a_fresh_stream() {
    let mut used = PsolaStream::<f32>::new(SR, 2, PsolaMode::Realtime).unwrap();
    let fresh = PsolaStream::<f32>::new(SR, 2, PsolaMode::Realtime).unwrap();
    used.accept_input(&[0.25; 10], SR, 2);
    used.acc_ensure_covers(3, 4, 0.0);
    used.finalize(5, |s, w| s / w.max(0.1));
    used.finalize_all(|s, w| s / w.max(0.1));
    assert_eq!(used.held_len(), 8);
    used.reset();
    assert_eq!(used.input().start(), fresh.input().start());
    assert_eq!(used.input().frames(), fresh.input().frames());
    assert_eq!(used.acc().start(), fresh.acc().start());
    assert_eq!(used.acc().len(), fresh.acc().len());
    assert_eq!(used.weights().start(), fresh.weights().start());
    assert_eq!(used.weights().len(), fresh.weights().len());
    assert_eq!(used.held_len(), fresh.held_len());
    assert_eq!(used.is_flushed(), fresh.is_flushed());
}

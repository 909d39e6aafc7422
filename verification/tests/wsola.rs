use phaserack::wsola::{WsolaGeometry, WsolaStream};
use phaserack::LatencyFrames;

const SR: u32 = 44_100;

#[test]
fn wsola_rejects_bad_format() {
    assert!(WsolaStream::<f32>::new(0, 1, 0, 0, 0.0).is_err());
    assert!(WsolaStream::<f32>::new(SR, 0, 662, 529, 0.0).is_err());
}

#[test]
fn capabilities_are_honest() {
    let caps = WsolaGeometry::capabilities();
    assert!(caps.time_stretch);
    assert!(!caps.pitch_shift, "WSOLA increment 1 is time-stretch only");
    assert!(!caps.supports_realtime_autotune());
}

#[test]
fn geometry_clamps_and_reports_lookahead() {
    let g = WsolaGeometry::from_rounded(662, 529);
    assert_eq!(g.synth_hop(), 662);
    assert_eq!(g.frame(), 1324);
    assert_eq!(g.search(), 529);
    assert_eq!(g.latency(), LatencyFrames { input: 2515, output: 0, processing: 0 });
    let tiny = WsolaGeometry::from_rounded(12, 10);
    assert_eq!(tiny.synth_hop(), 64);
    assert_eq!(tiny.frame(), 128);
    assert_eq!(tiny.search(), 16);
    assert!(tiny.grain_ready(0, 208));
    assert!(!tiny.grain_ready(1, 208));
    assert_eq!(tiny.search_bounds(100, 0), (-16, 16));
    assert_eq!(tiny.search_bounds(100, 90), (-10, 16));
    assert_eq!(tiny.keep_from(100), 84);
}

#[test]
fn flush_drains_then_finalizes_the_tail_once() {
    let mut st = WsolaStream::<i32>::new(SR, 1, 2, 0, 0).unwrap();
    assert_eq!(st.geometry().synth_hop(), 64);
    st.set_tail_sample(0, 7);
    for v in [1, 2, 3] {
        st.push_output(v);
    }
    st.prime();
    let mut out = [0; 2];
    assert_eq!(st.flush(&mut out, SR, 1, 0), 2);
    assert_eq!(out, [1, 2]);
    assert_eq!(st.flush(&mut out, SR, 1, 0), 1);
    assert_eq!(out, [3, 2]);
    // Nothing queued: the tail of the last grain is finalized, once.
    let mut big = [9; 100];
    assert_eq!(st.flush(&mut big, SR, 1, 0), 64);
    assert_eq!(big[0], 7);
    assert_eq!(big[64], 9);
    assert!(!st.is_primed());
    assert!((0..64).all(|i| st.tail_sample(i) == 0));
    assert_eq!(st.flush(&mut big, SR, 1, 0), 0);
    // Another format, or no room for a frame, does nothing.
    st.prime();
    assert_eq!(st.flush(&mut big, 48_000, 1, 0), 0);
    assert_eq!(st.flush(&mut [], SR, 1, 0), 0);
    assert!(st.is_primed());
}

#[test]
fn accept_input_takes_the_whole_block_in_the_built_for_format() {
    let mut st = WsolaStream::<f32>::new(SR, 2, 662, 529, 0.0).unwrap();
    // No room for an output frame still takes the whole input block.
    assert_eq!(st.accept_input(&[0.1; 6], 1, SR, 2), Some((3, 0)));
    assert_eq!(st.input().frames(), 3);
    // Another format takes nothing.
    assert_eq!(st.accept_input(&[0.1; 6], 8, SR, 1), None);
    assert_eq!(st.input().frames(), 3);
    assert_eq!(st.accept_input(&[0.1; 7], 8, SR, 2), Some((3, 4)));
    assert_eq!(st.input().frames(), 6);
    st.reset(0.0);
    assert_eq!(st.input().frames(), 0);
    assert!(!st.is_primed());
}

#[test]
fn wsola_reset_matches_a_fresh_stream() {
    let mut used = WsolaStream::<f32>::new(SR, 1, 662, 529, 0.0).unwrap();
    let fresh = WsolaStream::<f32>::new(SR, 1, 662, 529, 0.0).unwrap();
    used.accept_input(&[0.5; 3000], 4096, SR, 1);
    used.drop_before(100);
    used.set_tail_sample(5, 0.75);
    used.push_output(0.1);
    used.push_output(0.2);
    used.prime();
    used.reset(0.0);
    assert_eq!(used.input().start(), fresh.input().start());
    assert_eq!(used.input().frames(), fresh.input().frames());
    assert!((0..662).all(|i| used.tail_sample(i) == fresh.tail_sample(i)));
    assert_eq!(used.held_len(), fresh.held_len());
    assert_eq!(used.is_primed(), fresh.is_primed());
}

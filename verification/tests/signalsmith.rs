use phaserack::signalsmith::{SignalSmithStream, StretchSetup};
use phaserack::LatencyFrames;

const SR: u32 = 48_000;

#[test]
fn rejects_bad_format_and_short_blocks() {
    assert_eq!(
        SignalSmithStream::preset(0, 1).err().unwrap(),
        "sample rate must be greater than zero"
    );
    assert_eq!(
        SignalSmithStream::preset(SR, 0).err().unwrap(),
        "channel count must be greater than zero"
    );
    assert_eq!(
        SignalSmithStream::with_block_length(SR, 1, 3).err().unwrap(),
        "block length must be at least 4 samples"
    );
    assert_eq!(
        SignalSmithStream::with_block_length(0, 0, 3).err().unwrap(),
        "sample rate must be greater than zero"
    );
}

#[test]
fn setup_follows_the_constructor() {
    let s = SignalSmithStream::preset(SR, 2).unwrap();
    assert_eq!(s.setup(), StretchSetup::PresetDefault { channels: 2, sample_rate: SR });
    let s = SignalSmithStream::with_block_length(SR, 1, 16_384).unwrap();
    assert_eq!(
        s.setup(),
        StretchSetup::Blocks { channels: 1, block_length: 16_384, interval: 4096 }
    );
    let s = SignalSmithStream::with_block_length(SR, 1, 7).unwrap();
    assert_eq!(s.setup(), StretchSetup::Blocks { channels: 1, block_length: 7, interval: 1 });
    assert_eq!(s.tail_frames_remaining(), 0);
}

#[test]
fn process_frames_and_split() {
    let s = SignalSmithStream::preset(SR, 2).unwrap();
    assert_eq!(s.process_frames(10, 9, SR, 2), Some((5, 4)));
    assert_eq!(s.process_frames(1, 9, SR, 2), None);
    assert_eq!(s.process_frames(10, 1, SR, 2), None);
    assert_eq!(s.process_frames(10, 9, 44_100, 2), None);
    assert_eq!(s.process_frames(10, 9, SR, 1), None);
    assert_eq!(SignalSmithStream::consumed_frames(5, 8), 5);
    assert_eq!(SignalSmithStream::consumed_frames(5, 2), 2);
    assert_eq!(SignalSmithStream::written_frames(0, 4), 1);
    assert_eq!(SignalSmithStream::written_frames(9, 4), 4);
    assert_eq!(SignalSmithStream::written_frames(3, 4), 3);
}

#[test]
fn flush_drains_the_tail_exactly() {
    let mut s = SignalSmithStream::preset(SR, 2).unwrap();
    s.record_tail(5);
    assert_eq!(s.flush(8, SR, 1), 0); // other format
    assert_eq!(s.flush(4, SR, 2), 2);
    assert_eq!(s.flush(5, SR, 2), 2);
    assert_eq!(s.flush(100, SR, 2), 1);
    assert_eq!(s.flush(100, SR, 2), 0);
    s.record_tail(3);
    s.reset();
    assert_eq!(s.flush(100, SR, 2), 0);
}

#[test]
fn latency_and_capabilities() {
    assert_eq!(
        SignalSmithStream::latency(2880, 1440),
        LatencyFrames { input: 2880, output: 1440, processing: 0 }
    );
    let caps = SignalSmithStream::capabilities();
    assert!(caps.realtime && caps.pitch_shift && caps.time_stretch);
    assert!(caps.supports_realtime_autotune());
}

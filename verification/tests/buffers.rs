use phaserack::buffer::{Accumulator, InputBuffer, OutputQueue};

#[test]
fn input_reads_back_what_was_appended() {
    let mut b: InputBuffer<i32> = InputBuffer::new(2);
    b.append_frames(&[1, 2, 3, 4, 5]); // trailing half frame ignored
    assert_eq!(b.frames(), 2);
    assert_eq!(b.start(), 0);
    assert_eq!(b.end(), 2);
    assert_eq!(b.at_or(0, 0, -1), 1);
    assert_eq!(b.at_or(0, 1, -1), 2);
    assert_eq!(b.at_or(1, 1, -1), 4);
    assert_eq!(b.at_or(2, 0, -1), -1);
    assert_eq!(b.at_or(-1, 0, -1), -1);
    b.append_frames(&[6, 7]);
    assert_eq!(b.at_or(2, 1, -1), 7);
}

#[test]
fn input_drop_keeps_later_frames_addressable() {
    let mut b: InputBuffer<i32> = InputBuffer::new(1);
    b.append_frames(&[10, 11, 12, 13, 14]);
    b.drop_before(-3); // before the start: nothing dropped
    assert_eq!(b.frames(), 5);
    b.drop_before(2);
    assert_eq!(b.start(), 2);
    assert_eq!(b.frames(), 3);
    assert_eq!(b.at_or(1, 0, 0), 0);
    assert_eq!(b.at_or(2, 0, 0), 12);
    assert_eq!(b.at_or(4, 0, 0), 14);
}

#[test]
fn input_pop_moves_front_frames_in_order() {
    let mut b: InputBuffer<u8> = InputBuffer::new(2);
    b.append_frames(&[1, 2, 3, 4, 5, 6]);
    let mut out = [0u8; 5];
    assert_eq!(b.pop_front_into(&mut out), 2);
    assert_eq!(out, [1, 2, 3, 4, 0]);
    assert_eq!(b.start(), 2);
    assert_eq!(b.at_or(2, 1, 0), 6);
    let mut big = [0u8; 8];
    assert_eq!(b.pop_front_into(&mut big), 1);
    assert_eq!(big, [5, 6, 0, 0, 0, 0, 0, 0]);
    assert_eq!(b.frames(), 0);
    b.clear();
    assert_eq!(b.start(), 0);
}

#[test]
fn queue_drains_whole_frames_oldest_first() {
    let mut q: OutputQueue<i32> = OutputQueue::new(2);
    q.push_all(&[1, 2, 3, 4, 5]);
    assert_eq!(q.len(), 5);
    let mut out = [0; 6];
    assert_eq!(q.drain_into(&mut out), 2);
    assert_eq!(out, [1, 2, 3, 4, 0, 0]);
    assert_eq!(q.len(), 1); // half a frame stays
    let mut out2 = [7; 2];
    assert_eq!(q.drain_into(&mut out2), 0);
    assert_eq!(out2, [7, 7]);
    q.clear();
    assert!(q.is_empty());
}

#[test]
fn accumulator_covers_adds_and_finalizes() {
    let mut acc: Accumulator<i32> = Accumulator::new(1);
    acc.ensure_covers(-2, 4, 0); // an empty accumulator moves to the span start
    assert_eq!(acc.start(), -2);
    assert_eq!(acc.len(), 4);
    acc.ensure_covers(0, 3, 0); // grows to frame 3 at the back
    assert_eq!(acc.len(), 5);
    let i = acc.index_of(1, 0);
    assert_eq!(i, 3);
    acc.set(i, 5);
    assert_eq!(acc.get(3), 5);
    let mut hold: OutputQueue<i32> = OutputQueue::new(1);
    acc.finalize_into(2, &mut hold);
    assert_eq!(acc.start(), 2);
    assert_eq!(hold.len(), 4);
    let mut out = [9; 4];
    assert_eq!(hold.drain_into(&mut out), 4);
    assert_eq!(out, [0, 0, 0, 5]);
    acc.finalize_into(i64::MAX / 2, &mut hold);
    assert!(acc.is_empty());
    assert_eq!(hold.len(), 1);
    acc.clear();
    assert_eq!(acc.start(), 0);
}

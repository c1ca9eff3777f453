//! The periodic counter, the inactivity timer, and the byte writers.

use syfala::counter::{PeriodicCounter, Waker};
use syfala::interleave::{deinterleave, interleave};
use syfala::utils::{ByteWriter, ChainedWriter, ConnectionTimer, UninitCursor};

#[test]
fn counter_counts_boundary_crossings() {
    // advance(n) returns (current + n) / period boundaries, for any n.
    let mut c = PeriodicCounter::new(8);
    assert_eq!(c.period(), 8);
    assert_eq!(c.advance(3), 0);
    assert_eq!(c.advance(5), 1);
    assert_eq!(c.advance(17), 2);
    assert_eq!(c.advance(0), 0);
    assert_eq!(c.advance(7), 1);
}

#[test]
fn counter_with_unit_period() {
    let mut c = PeriodicCounter::new(1);
    assert_eq!(c.advance(5), 5);
    assert_eq!(c.advance(1), 1);
}

#[test]
fn waker_signals_once_per_boundary_crossing() {
    // A useful waker asks for one signal per call that crosses a
    // boundary; the useless one never does.
    let mut w = Waker::new(4);
    assert_eq!(w.chunk_size_samples(), 4);
    assert!(!w.advance(3));
    assert!(w.advance(1));
    assert!(w.advance(9));
    assert!(!w.advance(2));
    let mut lazy = Waker::useless();
    assert!(!lazy.advance(100));
}

#[test]
fn connection_timer_tracks_resets() {
    let mut t = ConnectionTimer::new(1000);
    assert_eq!(t.elapsed(1450), 450);
    t.reset(2000);
    assert_eq!(t.elapsed(2000), 0);
    assert_eq!(t.elapsed(2600), 600);
}

#[test]
fn cursor_fills_its_buffer_and_stops() {
    let mut cur = UninitCursor::new(vec![0u8; 4]);
    assert_eq!(cur.initialized(), 0);
    let n = cur.write(&vec![1, 2, 3, 4, 5, 6], 0);
    assert_eq!(n, 4);
    assert_eq!(cur.initialized(), 4);
    assert_eq!(cur.inner(), &vec![1, 2, 3, 4]);
    // A full cursor accepts nothing more.
    assert_eq!(cur.write(&vec![7], 0), 0);
}

#[test]
fn cursor_appends_across_writes() {
    let mut cur = UninitCursor::new(vec![0u8; 6]);
    assert_eq!(cur.write(&vec![1, 2], 0), 2);
    assert_eq!(cur.write(&vec![9, 3, 4], 1), 2);
    assert_eq!(cur.initialized(), 4);
    assert_eq!(&cur.inner()[..4], &[1, 2, 3, 4]);
}

#[test]
fn chained_writer_spills_into_second_buffer() {
    // The first buffer takes three bytes; the rest of the same write
    // lands in the second, with nothing lost and nothing reordered.
    let first = UninitCursor::new(vec![0u8; 3]);
    let second = UninitCursor::new(vec![0u8; 8]);
    let mut chain = ChainedWriter::new(first, second);
    let n = chain.write(&vec![1, 2, 3, 4, 5], 0);
    assert_eq!(n, 5);
    let n = chain.write(&vec![6, 7], 0);
    assert_eq!(n, 2);
}

#[test]
fn interleave_round_trip() {
    let left: Vec<u32> = vec![10, 20, 30];
    let right: Vec<u32> = vec![11, 21, 31];
    let channels = vec![left.clone(), right.clone()];
    let mixed = interleave(&channels, 3).unwrap();
    assert_eq!(mixed, vec![10, 11, 20, 21, 30, 31]);
    let back = deinterleave(&mixed, 2).unwrap();
    assert_eq!(back, channels);
    assert!(interleave(&Vec::new(), 3).is_none());
    assert!(deinterleave(&mixed, 0).is_none());
}

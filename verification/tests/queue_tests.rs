//! The ring-buffer bridge and its drift handling, against the real
//! SPSC queue.

use syfala::queue::{rb_new, relative_frame_index, Receiver, Sender, SILENCE_BITS};

#[test]
fn samples_flow_through_the_ring_buffer() {
    let (tx, rx) = rb_new(64);
    let mut sender = Sender::new(tx);
    let mut receiver = Receiver::new(rx);

    let pushed = sender.send(0, &vec![10, 20, 30, 40]).unwrap();
    assert_eq!(pushed, 4);

    let (out, discarded) = receiver.recv(0, 4).unwrap();
    assert_eq!(discarded, 0);
    assert_eq!(out, vec![10, 20, 30, 40]);
}

#[test]
fn send_gap_inserts_silence() {
    // The producer timer sits at 0; a cycle stamped 3 means samples
    // 0..3 were never produced, so three silence samples fill the gap.
    let (tx, rx) = rb_new(64);
    let mut sender = Sender::new(tx);
    let mut receiver = Receiver::new(rx);

    let pushed = sender.send(3, &vec![7, 8]).unwrap();
    assert_eq!(pushed, 5);

    let (out, _) = receiver.recv(0, 5).unwrap();
    assert_eq!(out, vec![SILENCE_BITS, SILENCE_BITS, SILENCE_BITS, 7, 8]);
}

#[test]
fn send_behind_timer_drops_covered_prefix() {
    // After five samples the timer sits at 5; a cycle stamped 3 brings
    // two samples already covered, so only the tail enters.
    let (tx, rx) = rb_new(64);
    let mut sender = Sender::new(tx);
    let mut receiver = Receiver::new(rx);

    sender.send(0, &vec![1, 2, 3, 4, 5]).unwrap();
    let pushed = sender.send(3, &vec![96, 97, 98, 99]).unwrap();
    assert_eq!(pushed, 2);

    let (out, _) = receiver.recv(0, 7).unwrap();
    assert_eq!(out, vec![1, 2, 3, 4, 5, 98, 99]);
}

#[test]
fn slot_snapshots_track_occupancy() {
    let (tx, rx) = rb_new(8);
    let mut sender = Sender::new(tx);
    let mut receiver = Receiver::new(rx);
    assert_eq!(sender.available_samples(), 8);
    assert_eq!(receiver.n_available_samples(), 0);
    sender.send(0, &vec![1, 2, 3]).unwrap();
    assert_eq!(sender.available_samples(), 5);
    assert_eq!(receiver.n_available_samples(), 3);
    assert!(!sender.is_abandoned());
    assert!(!receiver.is_abandoned());
}

#[test]
fn send_stops_when_buffer_full() {
    let (tx, _rx) = rb_new(3);
    let mut sender = Sender::new(tx);
    let pushed = sender.send(0, &vec![1, 2, 3, 4, 5]).unwrap();
    assert_eq!(pushed, 3);
}

#[test]
fn recv_pads_with_silence_when_starved() {
    let (tx, rx) = rb_new(8);
    let mut sender = Sender::new(tx);
    let mut receiver = Receiver::new(rx);
    sender.send(0, &vec![5, 6]).unwrap();
    let (out, _) = receiver.recv(0, 4).unwrap();
    assert_eq!(out, vec![5, 6, SILENCE_BITS, SILENCE_BITS]);
}

#[test]
fn recv_ahead_of_timer_discards_covered_samples() {
    // The consumer timer sits at 0; a cycle stamped 2 means the first
    // two queued samples were already covered: they are discarded.
    let (tx, rx) = rb_new(8);
    let mut sender = Sender::new(tx);
    let mut receiver = Receiver::new(rx);
    sender.send(0, &vec![1, 2, 3, 4]).unwrap();
    let (out, discarded) = receiver.recv(2, 2).unwrap();
    assert_eq!(discarded, 2);
    assert_eq!(out, vec![3, 4]);
}

#[test]
fn recv_behind_timer_silences_leading_output() {
    // The consumer timer sits at 4 after one cycle; a cycle stamped 2
    // starts two samples before the queued data: the first two output
    // samples are silence.
    let (tx, rx) = rb_new(16);
    let mut sender = Sender::new(tx);
    let mut receiver = Receiver::new(rx);
    sender.send(0, &vec![1, 2, 3, 4, 50, 60]).unwrap();
    receiver.recv(0, 4).unwrap();
    let (out, discarded) = receiver.recv(2, 4).unwrap();
    assert_eq!(discarded, 0);
    assert_eq!(out, vec![SILENCE_BITS, SILENCE_BITS, 50, 60]);
}

#[test]
fn huge_drift_is_an_error() {
    let (tx, rx) = rb_new(4);
    let mut sender = Sender::new(tx);
    assert!(sender.send(u64::MAX - 10, &vec![]).is_err());
    let mut receiver = Receiver::new(rx);
    assert!(receiver.recv(u64::MAX - 10, 0).is_err());
}

#[test]
fn frame_index_saturates_on_backwards_counters() {
    assert_eq!(relative_frame_index(1000, 1256), 256);
    assert_eq!(relative_frame_index(1000, 1000), 0);
    assert_eq!(relative_frame_index(1000, 900), 0);
}

#[test]
fn zero_timestamp_anchoring() {
    // Anchoring the timer re-bases drift: a first cycle with a large
    // engine timestamp is not a gap.
    let (tx, rx) = rb_new(16);
    let mut sender = Sender::new(tx);
    let mut receiver = Receiver::new(rx);
    sender.set_zero_timestamp(1_000_000);
    let pushed = sender.send(1_000_000, &vec![4, 5, 6]).unwrap();
    assert_eq!(pushed, 3);
    let (out, _) = receiver.recv(0, 3).unwrap();
    assert_eq!(out, vec![4, 5, 6]);
}

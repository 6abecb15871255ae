use dirwatch::channels::{Receiver, RingBuffer};

#[test]
fn channel_creation_sends_initial_sentinel() {
    let (state, _tx, mut rx) = RingBuffer::channel(4, 7u32);
    assert_eq!(rx.recv_some(&state), Some(7));
    assert_eq!(rx.recv_some(&state), None);
}

#[test]
fn receiver_observes_sends_in_order() {
    let (mut state, tx, mut rx) = RingBuffer::channel(4, 0u32);
    assert_eq!(rx.recv_some(&state), Some(0));
    tx.send(&mut state, 1);
    tx.send(&mut state, 2);
    tx.send(&mut state, 3);
    assert_eq!(rx.recv_some(&state), Some(1));
    assert_eq!(rx.recv_some(&state), Some(2));
    assert_eq!(rx.recv_some(&state), Some(3));
    assert_eq!(rx.recv_some(&state), None);
}

#[test]
fn slow_receiver_resumes_at_oldest_retained() {
    // Capacity 4; versions 1 (initial 100) through 9 are sent, so versions
    // 6..=9 are retained: a receiver at cursor 0 resumes at version 6, whose
    // payload was the fifth send after the sentinel.
    let (mut state, tx, mut rx) = RingBuffer::channel(4, 100u32);
    for v in 1..=8u32 {
        tx.send(&mut state, v);
    }
    assert_eq!(rx.recv_some(&state), Some(5));
    assert_eq!(rx.recv_some(&state), Some(6));
    assert_eq!(rx.recv_some(&state), Some(7));
    assert_eq!(rx.recv_some(&state), Some(8));
    assert_eq!(rx.recv_some(&state), None);
}

#[test]
fn cloned_receiver_restarts_at_zero_and_never_blocks() {
    let (mut state, tx, rx) = RingBuffer::channel(8, 0u32);
    tx.send(&mut state, 1);
    tx.send(&mut state, 2);
    let mut fresh = rx.cloned();
    // All three versions are retained, so the clone re-observes the full
    // history, sentinel included, and a poll always yields a value.
    assert_eq!(fresh.recv_some(&state), Some(0));
    assert_eq!(fresh.recv_some(&state), Some(1));
    assert_eq!(fresh.recv_some(&state), Some(2));
}

#[test]
fn cloned_receiver_after_overflow_is_no_older_than_window() {
    let (mut state, tx, rx) = RingBuffer::channel(4, 0u32);
    // 9 sends follow the sentinel: 10 versions, retained 7..=10.
    for v in 1..=9u32 {
        tx.send(&mut state, v);
    }
    let mut fresh = rx.cloned();
    assert_eq!(fresh.recv_some(&state), Some(6));
}

#[test]
fn receivers_with_equal_cursors_observe_equal_values() {
    let (mut state, tx, rx) = RingBuffer::channel(4, 0u32);
    tx.send(&mut state, 10);
    tx.send(&mut state, 20);
    let mut a = rx.cloned();
    let mut b = rx.cloned();
    // Reads consume nothing: both receivers see the same sequence, on first
    // and on repeated polls.
    for _ in 0..3 {
        assert_eq!(a.recv_some(&state), b.recv_some(&state));
    }
    assert_eq!(a.recv_some(&state), None);
    assert_eq!(b.recv_some(&state), None);
}

#[test]
fn last_message_reached_within_capacity_polls() {
    // Once sends stop, any receiver reaches the newest message within
    // `capacity` polls — the shutdown message cannot be missed.
    let (mut state, tx, rx) = RingBuffer::channel(4, 0u32);
    for v in 1..=37u32 {
        tx.send(&mut state, v);
    }
    let mut fresh: Receiver = rx.cloned();
    let mut polls = 0;
    let mut last = None;
    while let Some(v) = fresh.recv_some(&state) {
        polls += 1;
        last = Some(v);
        assert!(polls <= 4);
    }
    assert_eq!(last, Some(37));
}

#[test]
fn versions_increase_strictly_across_polls() {
    let (mut state, tx, mut rx) = RingBuffer::channel(3, 0u32);
    let mut seen: Vec<u32> = Vec::new();
    for round in 0..5u32 {
        tx.send(&mut state, round * 2 + 1);
        tx.send(&mut state, round * 2 + 2);
        if let Some(v) = rx.recv_some(&state) {
            seen.push(v);
        }
    }
    // Payloads were sent in increasing order, so strictly increasing observed
    // payloads witness strictly increasing observed versions.
    for w in seen.windows(2) {
        assert!(w[0] < w[1]);
    }
}

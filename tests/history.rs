use sync_server::codec::{encode_state_packet, PlayerState, PAYLOAD_LEN};
use sync_server::history::{History, MAX_UPDATES};

fn snapshot(seq: u32) -> PlayerState {
    let p = [seq as u8; PAYLOAD_LEN];
    PlayerState::from_bytes(encode_state_packet(seq, 1, &p)).2
}

fn seq_of(record: [u8; 24]) -> u32 {
    u32::from_be_bytes([record[0], record[1], record[2], record[3]])
}

/// Takes every retained record for player `to`, freshest first.
fn drain(h: &mut History, to: u32) -> Vec<u32> {
    let mut out = Vec::new();
    while let Some(r) = h.take_freshest_unsent(to) {
        out.push(seq_of(r));
    }
    out
}

#[test]
fn duplicate_sequence_is_rejected() {
    let mut h = History::new();
    h.update(5, snapshot(5));
    assert_eq!(h.take_freshest_unsent(2).map(seq_of), Some(5));
    h.update(5, snapshot(5));
    assert_eq!(h.len(), 1);
    // the delivery mark survives the duplicate
    assert_eq!(h.take_freshest_unsent(2), None);
}

#[test]
fn history_keeps_order_and_capacity() {
    let mut h = History::new();
    for s in [30u32, 10, 50, 20, 40] {
        h.update(s, snapshot(s));
    }
    assert_eq!(drain(&mut h, 7), vec![50, 40, 30, 20, 10]);
    let mut h = History::new();
    for s in 0..(MAX_UPDATES as u32 + 5) {
        h.update(s, snapshot(s));
    }
    assert_eq!(h.len(), MAX_UPDATES);
    let got = drain(&mut h, 7);
    let want: Vec<u32> = (5..(MAX_UPDATES as u32 + 5)).rev().collect();
    assert_eq!(got, want);
}

#[test]
fn full_history_drops_stale_and_evicts_oldest() {
    let mut h = History::new();
    for s in 100..(100 + MAX_UPDATES as u32) {
        h.update(s, snapshot(s));
    }
    // not newer than the oldest retained: dropped
    h.update(100, snapshot(100));
    h.update(3, snapshot(3));
    assert_eq!(h.len(), MAX_UPDATES);
    // newer than the oldest: inserted, oldest evicted
    h.update(101 + MAX_UPDATES as u32, snapshot(101 + MAX_UPDATES as u32));
    let got = drain(&mut h, 1);
    assert_eq!(got.len(), MAX_UPDATES);
    assert_eq!(got[0], 101 + MAX_UPDATES as u32);
    assert_eq!(*got.last().unwrap(), 101);
}

#[test]
fn below_capacity_any_new_sequence_is_accepted() {
    let mut h = History::new();
    h.update(1000, snapshot(1000));
    h.update(1, snapshot(1));
    assert_eq!(drain(&mut h, 4), vec![1000, 1]);
}

#[test]
fn selection_is_per_recipient_and_never_repeats() {
    let mut h = History::new();
    h.update(1, snapshot(1));
    h.update(2, snapshot(2));
    assert_eq!(h.take_freshest_unsent(10).map(seq_of), Some(2));
    assert_eq!(h.take_freshest_unsent(11).map(seq_of), Some(2));
    assert_eq!(h.take_freshest_unsent(10).map(seq_of), Some(1));
    assert_eq!(h.take_freshest_unsent(10), None);
    h.update(3, snapshot(3));
    assert_eq!(h.take_freshest_unsent(10).map(seq_of), Some(3));
    assert_eq!(h.take_freshest_unsent(10), None);
}

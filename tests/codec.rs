use sync_server::codec::{decode_state_packet, encode_state_packet, InvalidLength, PlayerState, PAYLOAD_LEN, STATE_LEN};

fn payload(seed: u8) -> [u8; PAYLOAD_LEN] {
    let mut p = [0u8; PAYLOAD_LEN];
    for (i, b) in p.iter_mut().enumerate() {
        *b = seed.wrapping_add(i as u8);
    }
    p
}

#[test]
fn encode_writes_big_endian_header_then_payload() {
    let p = payload(7);
    let r = encode_state_packet(0x0102_0304, 0xA0B0_C0D0, &p);
    assert_eq!(r.len(), STATE_LEN);
    assert_eq!(&r[0..4], &[0x01, 0x02, 0x03, 0x04]);
    assert_eq!(&r[4..8], &[0xA0, 0xB0, 0xC0, 0xD0]);
    assert_eq!(&r[8..], &p[..]);
}

#[test]
fn from_bytes_reads_id_and_sequence() {
    let p = payload(200);
    let r = encode_state_packet(1, 0x11, &p);
    let (id, seq, st) = PlayerState::from_bytes(r);
    assert_eq!(id, 0x11);
    assert_eq!(seq, 1);
    assert_eq!(st.bytes(), r);
    assert!(!st.was_sent_to(0x11));
}

#[test]
fn decode_round_trips_an_encoded_record() {
    let p = payload(3);
    let r = encode_state_packet(u32::MAX, 0xFFFF_FF00, &p);
    let (id, seq, st) = decode_state_packet(&r[..]).unwrap();
    assert_eq!(id, 0xFFFF_FF00);
    assert_eq!(seq, u32::MAX);
    assert_eq!(st.bytes(), r);
}

#[test]
fn decode_rejects_short_and_long_datagrams() {
    let r = encode_state_packet(5, 6, &payload(1));
    assert_eq!(decode_state_packet(&r[..STATE_LEN - 1]).err(), Some(InvalidLength));
    let mut long = r.to_vec();
    long.push(0);
    assert_eq!(decode_state_packet(&long).err(), Some(InvalidLength));
    assert_eq!(decode_state_packet(&[]).err(), Some(InvalidLength));
}

#[test]
fn mark_sent_to_is_remembered_per_player() {
    let (_, _, mut st) = PlayerState::from_bytes(encode_state_packet(1, 2, &payload(0)));
    st.mark_sent_to(9);
    assert!(st.was_sent_to(9));
    assert!(!st.was_sent_to(8));
}

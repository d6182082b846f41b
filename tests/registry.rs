use std::collections::HashSet;
use sync_server::codec::{decode_state_packet, encode_state_packet, PlayerState, PAYLOAD_LEN};
use sync_server::message::{ConnectInfo, ServerMessage};
use sync_server::state::{ConnectionUpdate, Full, State, MAX_PLAYERS};

fn info(name: &str) -> ConnectInfo {
    ConnectInfo { color: [1, 2, 3], name: name.to_string() }
}

fn send(s: &mut State, seq: u32, id: u32, payload: [u8; PAYLOAD_LEN]) -> Option<Vec<[u8; 24]>> {
    let (id, seq, st) = PlayerState::from_bytes(encode_state_packet(seq, id, &payload));
    s.update(id, seq, st)
}

#[test]
fn connect_gives_unique_ids_until_full() {
    let mut s = State::new();
    let mut seen = HashSet::new();
    let mut rxs = Vec::new();
    for n in 0..MAX_PLAYERS {
        let (id, rx, roster) = s.connect(info("p")).unwrap();
        assert_eq!(roster.len(), n);
        assert!(seen.insert(id));
        assert!(s.is_connected(id));
        rxs.push(rx);
    }
    assert_eq!(s.player_count(), MAX_PLAYERS);
    assert!(matches!(s.connect(info("late")), Err(Full)));
    assert_eq!(s.player_count(), MAX_PLAYERS);
}

#[test]
fn connect_broadcast_reaches_each_existing_player_once() {
    let mut s = State::new();
    let mut rxs = Vec::new();
    for i in 0..4u32 {
        let (rx, _) = s.connect_as(100 + i, info("p"));
        rxs.push(rx);
    }
    let (mut new_rx, roster) = s.connect_as(7, info("new"));
    let mut roster_ids: Vec<u32> = roster.iter().map(|p| p.id).collect();
    roster_ids.sort();
    assert_eq!(roster_ids, vec![100, 101, 102, 103]);
    assert!(new_rx.try_recv().is_err());
    for rx in rxs.iter_mut() {
        let mut joined = Vec::new();
        while let Ok(ev) = rx.try_recv() {
            if let ConnectionUpdate::Connected(p) = ev {
                joined.push(p.id);
            }
        }
        assert_eq!(joined.iter().filter(|&&id| id == 7).count(), 1);
    }
}

#[test]
fn disconnect_broadcast_reaches_each_remaining_player_once() {
    let mut s = State::new();
    let mut rxs = Vec::new();
    for i in 0..4u32 {
        let (rx, _) = s.connect_as(i, info("p"));
        rxs.push(rx);
    }
    for rx in rxs.iter_mut() {
        while rx.try_recv().is_ok() {}
    }
    s.disconnect(2);
    assert!(!s.is_connected(2));
    assert_eq!(s.player_count(), 3);
    for (i, rx) in rxs.iter_mut().enumerate() {
        let mut left = Vec::new();
        while let Ok(ev) = rx.try_recv() {
            if let ConnectionUpdate::Disconnected(id) = ev {
                left.push(id);
            }
        }
        if i == 2 {
            assert!(left.is_empty());
        } else {
            assert_eq!(left, vec![2]);
        }
    }
    // a second disconnect changes nothing
    s.disconnect(2);
    assert_eq!(s.player_count(), 3);
    assert!(rxs[0].try_recv().is_err());
}

#[test]
fn connected_event_carries_attributes() {
    let mut s = State::new();
    let (mut rx_a, _) = s.connect_as(1, info("a"));
    let _b = s.connect_as(2, ConnectInfo { color: [9, 8, 7], name: "bee".to_string() });
    match rx_a.try_recv().unwrap() {
        ConnectionUpdate::Connected(p) => {
            assert_eq!(p.id, 2);
            assert_eq!(p.color, [9, 8, 7]);
            assert_eq!(p.name, "bee");
            match ServerMessage::from_update(ConnectionUpdate::Connected(p)) {
                ServerMessage::PlayerJoined { id, color, name } => {
                    assert_eq!((id, color, name.as_str()), (2, [9, 8, 7], "bee"));
                }
                other => panic!("unexpected {:?}", other),
            }
        }
        other => panic!("unexpected {:?}", other),
    }
    assert!(matches!(
        ServerMessage::from_update(ConnectionUpdate::Disconnected(5)),
        ServerMessage::PlayerLeft { id: 5 }
    ));
}

#[test]
fn update_from_unknown_player_is_ignored() {
    let mut s = State::new();
    let _a = s.connect_as(1, info("a"));
    assert!(send(&mut s, 1, 99, [0; PAYLOAD_LEN]).is_none());
}

#[test]
fn poll_never_returns_own_or_repeated_snapshots() {
    let mut s = State::new();
    let _a = s.connect_as(1, info("a"));
    let _b = s.connect_as(2, info("b"));
    assert_eq!(send(&mut s, 1, 1, [1; PAYLOAD_LEN]).unwrap().len(), 0);
    assert_eq!(send(&mut s, 2, 1, [2; PAYLOAD_LEN]).unwrap().len(), 0);
    // player 2 sees player 1's freshest snapshot, then the older one, then nothing
    let r = send(&mut s, 1, 2, [0; PAYLOAD_LEN]).unwrap();
    assert_eq!(r.len(), 1);
    assert_eq!(decode_state_packet(&r[0]).unwrap().1, 2);
    let r = send(&mut s, 2, 2, [0; PAYLOAD_LEN]).unwrap();
    assert_eq!(decode_state_packet(&r[0]).unwrap().1, 1);
    let r = send(&mut s, 3, 2, [0; PAYLOAD_LEN]).unwrap();
    assert!(r.is_empty());
    // a duplicate from player 1 changes nothing for player 2
    send(&mut s, 2, 1, [5; PAYLOAD_LEN]);
    assert!(s.filtered_state(2).is_empty());
    // player 1 gets player 2's snapshots, never its own
    let r = s.filtered_state(1);
    assert_eq!(r.len(), 1);
    assert_eq!(decode_state_packet(&r[0]).unwrap().0, 2);
}

#[test]
fn end_to_end_two_players() {
    let mut s = State::new();
    let (mut rx_a, roster_a) = s.connect_as(0x11, info("a"));
    assert!(roster_a.is_empty());
    let (mut rx_b, roster_b) = s.connect_as(0x22, info("b"));
    assert_eq!(roster_b.iter().map(|p| p.id).collect::<Vec<_>>(), vec![0x11]);
    match rx_a.try_recv().unwrap() {
        ConnectionUpdate::Connected(p) => assert_eq!(p.id, 0x22),
        other => panic!("unexpected {:?}", other),
    }
    let payload_a = [0xAB; PAYLOAD_LEN];
    send(&mut s, 1, 0x11, payload_a).unwrap();
    let r = send(&mut s, 1, 0x22, [0xCD; PAYLOAD_LEN]).unwrap();
    assert_eq!(r.len(), 1);
    let (id, seq, st) = decode_state_packet(&r[0]).unwrap();
    assert_eq!((id, seq), (0x11, 1));
    assert_eq!(&st.bytes()[8..], &payload_a[..]);
    s.disconnect(0x11);
    match rx_b.try_recv().unwrap() {
        ConnectionUpdate::Disconnected(id) => assert_eq!(id, 0x11),
        other => panic!("unexpected {:?}", other),
    }
    for seq in 2..6 {
        let r = send(&mut s, seq, 0x22, [0; PAYLOAD_LEN]).unwrap();
        assert!(r.iter().all(|rec| decode_state_packet(rec).unwrap().0 != 0x11));
    }
    // a packet from the departed player is dropped
    assert!(send(&mut s, 9, 0x11, payload_a).is_none());
}

#[test]
fn player_info_duplicate_is_identical() {
    let mut s = State::new();
    let _a = s.connect_as(3, ConnectInfo { color: [4, 5, 6], name: "x".to_string() });
    let (_rx, roster) = s.connect_as(4, info("y"));
    let d = roster[0].duplicate();
    assert_eq!((d.id, d.color, d.name.as_str()), (3, [4, 5, 6], "x"));
}

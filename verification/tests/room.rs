use omspbase::server::room::{PeerRole, RoomError, RoomManager};

#[test]
fn room_manager_join_and_leave() {
    let mut rm = RoomManager::new();
    assert_eq!(rm.active_rooms(), 0);

    rm.join_room("room-1", "host-1", &PeerRole::Host).unwrap();
    assert_eq!(rm.active_rooms(), 1);
    assert_eq!(rm.get_peer_count(), 1);

    rm.join_room("room-1", "remote-1", &PeerRole::Remote).unwrap();
    assert_eq!(rm.active_rooms(), 1);
    assert_eq!(rm.get_peer_count(), 2);

    let result = rm.join_room("room-1", "host-2", &PeerRole::Host);
    assert!(result.is_err());
    assert_eq!(rm.get_peer_count(), 2);

    let result = rm.join_room("room-1", "remote-2", &PeerRole::Remote);
    assert!(result.is_err());

    rm.leave_room("room-1", "host-1");
    assert_eq!(rm.get_peer_count(), 1);

    rm.leave_room("room-1", "remote-1");
    assert_eq!(rm.active_rooms(), 0);
    assert_eq!(rm.get_peer_count(), 0);
}

#[test]
fn room_manager_multiple_rooms() {
    let mut rm = RoomManager::new();
    rm.join_room("room-a", "h-a", &PeerRole::Host).unwrap();
    rm.join_room("room-b", "h-b", &PeerRole::Host).unwrap();
    rm.join_room("room-c", "h-c", &PeerRole::Host).unwrap();

    assert_eq!(rm.active_rooms(), 3);
    assert_eq!(rm.get_peer_count(), 3);

    rm.leave_room("room-b", "h-b");
    assert_eq!(rm.active_rooms(), 2);
    assert_eq!(rm.get_peer_count(), 2);
}

#[test]
fn test_room_manager_signaling_flow() {
    let mut rm = RoomManager::new();

    rm.join_room("room-1", "host-1", &PeerRole::Host).unwrap();
    assert_eq!(rm.active_rooms(), 1);
    assert_eq!(rm.get_peer_count(), 1);

    rm.join_room("room-1", "remote-1", &PeerRole::Remote).unwrap();
    assert_eq!(rm.active_rooms(), 1);
    assert_eq!(rm.get_peer_count(), 2);

    assert!(rm.join_room("room-1", "host-2", &PeerRole::Host).is_err());
    assert!(rm.join_room("room-1", "remote-2", &PeerRole::Remote).is_err());

    rm.leave_room("room-1", "host-1");
    assert_eq!(rm.get_peer_count(), 1);

    rm.leave_room("room-1", "remote-1");
    assert_eq!(rm.active_rooms(), 0);
    assert_eq!(rm.get_peer_count(), 0);
}

#[test]
fn full_slot_is_room_full_and_freed_slot_rejoins() {
    let mut rm = RoomManager::new();
    rm.join_room("r", "h1", &PeerRole::Host).unwrap();
    assert_eq!(rm.join_room("r", "h2", &PeerRole::Host), Err(RoomError::RoomFull));
    rm.leave_room("r", "h1");
    assert_eq!(rm.active_rooms(), 0);
    assert!(rm.join_room("r", "h2", &PeerRole::Host).is_ok());
    assert_eq!(rm.connected_peers(), 1);
}

#[test]
fn leaving_with_unknown_peer_keeps_room() {
    let mut rm = RoomManager::new();
    rm.join_room("r", "p", &PeerRole::Remote).unwrap();
    rm.leave_room("r", "someone-else");
    rm.leave_room("missing", "p");
    assert_eq!(rm.active_rooms(), 1);
    assert!(rm.get_other_peer("r", "p").is_none());
    rm.cleanup_stale(0);
    assert_eq!(rm.active_rooms(), 1);
}

#[test]
fn other_peer_is_the_opposite_slot() {
    let mut rm = RoomManager::new();
    assert_eq!(rm.join_room("r", "h", &PeerRole::Host), Ok(()));
    assert_eq!(rm.get_other_peer("r", "h"), None);
    assert_eq!(rm.join_room("r", "m", &PeerRole::Remote), Ok(()));
    assert_eq!(rm.get_other_peer("r", "h"), Some("m".to_string()));
    assert_eq!(rm.get_other_peer("r", "m"), Some("h".to_string()));
    assert_eq!(rm.get_other_peer("r", "x"), None);
    assert_eq!(rm.get_other_peer("nope", "h"), None);
}

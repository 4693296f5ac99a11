use lobby_server::lobby::MAX_PLAYERS_PER_LOBBY;
use lobby_server::vectors::Vector3;
use lobby_server::world::World;

fn spawn() -> Vector3 {
    Vector3::new(0, 1_000_000, 0)
}

#[test]
fn lazy_creation_on_first_assign() {
    // capacity two, no rooms: the first connect creates exactly one room
    // and its occupancy becomes one
    let mut w = World::new(2);
    assert_eq!(w.lobbies.len(), 0);
    w.client_connected(1, spawn(), 0);
    assert_eq!(w.lobbies.len(), 1);
    assert_eq!(w.lobbies[0].id, 1);
    assert_eq!(w.lobbies[0].player_count, 1);
    let u = w.get_user(1).unwrap();
    assert_eq!(u.lobby_id, 1);
    assert!(u.online);
}

#[test]
fn first_fit_picks_first_room_with_space() {
    // rooms [full, one short of full, empty] in scan order: the next
    // assignment goes to the middle one
    let mut w = World::new(2);
    w.client_connected(1, spawn(), 0);
    w.client_connected(2, spawn(), 0); // room 1 full
    w.client_connected(3, spawn(), 0);
    w.client_connected(4, spawn(), 0); // room 2 full
    w.client_connected(5, spawn(), 0); // room 3 opened
    w.client_disconnected(3); // room 2 down to one
    w.client_disconnected(5); // room 3 empty
    assert_eq!(w.lobbies.len(), 3);
    assert_eq!(w.lobbies[0].player_count, 2);
    assert_eq!(w.lobbies[1].player_count, 1);
    assert_eq!(w.lobbies[2].player_count, 0);
    let target = w.assign_user_to_lobby(6); // unknown user: no record, no write
    assert_eq!(target, 0);
    w.client_connected(6, spawn(), 0);
    assert_eq!(w.get_user(6).unwrap().lobby_id, w.lobbies[1].id);
    assert_eq!(w.lobbies[1].player_count, 2);
    assert_eq!(w.lobbies[2].player_count, 0);
}

#[test]
fn rooms_fill_in_scan_order_and_respect_capacity() {
    let mut w = World::new(2);
    for id in 1..=5u64 {
        w.client_connected(id, spawn(), 0);
    }
    assert_eq!(w.lobbies.len(), 3);
    assert_eq!(w.lobbies[0].player_count, 2);
    assert_eq!(w.lobbies[1].player_count, 2);
    assert_eq!(w.lobbies[2].player_count, 1);
    for l in w.lobbies.iter() {
        assert!(l.player_count <= 2);
    }
}

#[test]
fn room_ids_are_fresh_and_increasing() {
    let mut w = World::new(1);
    w.client_connected(10, spawn(), 0);
    w.client_connected(20, spawn(), 0);
    w.client_connected(30, spawn(), 0);
    assert_eq!(w.lobbies.len(), 3);
    assert!(w.lobbies[0].id < w.lobbies[1].id);
    assert!(w.lobbies[1].id < w.lobbies[2].id);
}

#[test]
fn release_on_unknown_room_is_ignored() {
    let mut w = World::new(2);
    w.client_connected(1, spawn(), 0);
    w.user_disconnected(99);
    assert_eq!(w.lobbies.len(), 1);
    assert_eq!(w.lobbies[0].player_count, 1);
}

#[test]
fn release_on_empty_room_leaves_it_at_zero() {
    let mut w = World::new(2);
    w.client_connected(1, spawn(), 0);
    w.client_disconnected(1); // room 1 back to zero
    assert_eq!(w.lobbies[0].player_count, 0);
    w.user_disconnected(1); // already empty: stays zero, never negative
    assert_eq!(w.lobbies[0].player_count, 0);
}

#[test]
fn audit_agrees_with_stored_occupancy() {
    // recomputing occupancy from the user records finds no drift
    let mut w = World::new(2);
    for id in 1..=5u64 {
        w.client_connected(id, spawn(), 0);
    }
    w.client_disconnected(2);
    for l in 0..w.lobbies.len() {
        let lobby = w.lobbies[l];
        assert_eq!(w.audit_occupancy(lobby.id), lobby.player_count as u64);
    }
}

#[test]
fn deployment_capacity_constant() {
    let mut w = World::new(MAX_PLAYERS_PER_LOBBY);
    for id in 1..=17u64 {
        w.client_connected(id, spawn(), 0);
    }
    // sixteen users pack the first room; the seventeenth opens a second
    assert_eq!(w.lobbies.len(), 2);
    assert_eq!(w.lobbies[0].player_count, 16);
    assert_eq!(w.lobbies[1].player_count, 1);
}

#[test]
fn exhausted_id_space_abandons_assignment() {
    // every room full and no fresh id left: the connect still records
    // the presence, but the user stays unassigned and nothing is counted
    let mut w = World::new(1);
    w.client_connected(1, spawn(), 0);
    assert_eq!(w.lobbies[0].player_count, 1);
    w.next_lobby_id = u64::MAX;
    w.client_connected(2, spawn(), 0);
    let u = w.get_user(2).unwrap();
    assert!(u.online);
    assert_eq!(u.lobby_id, 0);
    assert_eq!(w.lobbies.len(), 1);
    assert_eq!(w.lobbies[0].player_count, 1);
}

#[test]
fn lookups_on_unknown_ids() {
    let mut w = World::new(2);
    w.client_connected(1, spawn(), 0);
    assert!(w.get_lobby(99).is_none());
    assert!(w.get_user(99).is_none());
    assert_eq!(w.audit_occupancy(99), 0);
}

#[test]
fn assign_unknown_user_writes_nothing_to_users() {
    let mut w = World::new(2);
    let target = w.assign_user_to_lobby(42);
    // the allocator opens a room before it looks the user up, so the
    // empty room remains, but no user record was written
    assert_eq!(target, 0);
    assert_eq!(w.lobbies.len(), 1);
    assert_eq!(w.lobbies[0].player_count, 0);
    assert!(w.get_user(42).is_none());
}

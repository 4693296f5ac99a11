use lobby_server::presence::MoveError;
use lobby_server::vectors::{Vector2, Vector3, SCALE};
use lobby_server::world::World;

fn spawn() -> Vector3 {
    Vector3::new(0, 1_000_000, 0)
}

#[test]
fn round_trip_disconnect_reconnect() {
    // connect: counted once; disconnect: offline, uncounted, room gives
    // the occupant back; reconnect: counted exactly once again
    let mut w = World::new(2);
    w.client_connected(7, spawn(), 100);
    let room = w.get_user(7).unwrap().lobby_id;
    assert!(room != 0);
    assert_eq!(w.get_lobby(room).unwrap().player_count, 1);
    w.client_disconnected(7);
    let u = w.get_user(7).unwrap();
    assert!(!u.online);
    assert_eq!(u.lobby_id, 0);
    assert_eq!(w.get_lobby(room).unwrap().player_count, 0);
    w.client_connected(7, spawn(), 200);
    let u2 = w.get_user(7).unwrap();
    assert!(u2.online);
    assert!(u2.lobby_id != 0);
    assert_eq!(w.get_lobby(u2.lobby_id).unwrap().player_count, 1);
}

#[test]
fn reconnect_while_still_assigned_counts_once() {
    // a second connect without a disconnect must not double-count
    let mut w = World::new(2);
    w.client_connected(7, spawn(), 0);
    let room = w.get_user(7).unwrap().lobby_id;
    w.client_connected(7, spawn(), 50);
    assert_eq!(w.get_user(7).unwrap().lobby_id, room);
    assert_eq!(w.get_lobby(room).unwrap().player_count, 1);
}

#[test]
fn disconnect_of_unknown_identity_is_ignored() {
    let mut w = World::new(2);
    w.client_connected(1, spawn(), 0);
    w.client_disconnected(99);
    assert_eq!(w.users.len(), 1);
    assert_eq!(w.lobbies[0].player_count, 1);
}

#[test]
fn connect_keeps_kinematics_of_known_user() {
    let mut w = World::new(2);
    w.client_connected(1, Vector3::new(5, 6, 7), 10);
    w.move_user(1, Vector2::new(3 * SCALE, 4 * SCALE), 20).unwrap();
    w.client_disconnected(1);
    w.client_connected(1, Vector3::new(9, 9, 9), 30);
    // the stored record survives the round trip; the new spawn position
    // is not written over it
    let kin = w.get_user(1).unwrap().kin;
    assert_eq!(kin.position, Vector3::new(5, 6, 7));
    assert_eq!(kin.direction, Vector2::new(600_000, 800_000));
}

#[test]
fn unknown_user_movement_fails_and_writes_nothing() {
    let mut w = World::new(2);
    w.client_connected(1, spawn(), 0);
    let before_users = w.users.clone();
    let before_lobbies = w.lobbies.clone();
    let r = w.move_user(42, Vector2::new(SCALE, 0), 1_000);
    assert_eq!(r, Err(MoveError::UserNotFound));
    assert_eq!(w.users, before_users);
    assert_eq!(w.lobbies, before_lobbies);
}

#[test]
fn movement_extrapolates_from_previous_direction() {
    let mut w = World::new(2);
    w.client_connected(7, Vector3::new(0, 1_000_000, 0), 1_000);
    // first request sets the direction; the position holds still because
    // the stored direction was zero
    w.move_user(7, Vector2::new(SCALE, 0), 1_000).unwrap();
    let kin1 = w.get_user(7).unwrap().kin;
    assert_eq!(kin1.direction, Vector2::new(SCALE, 0));
    assert_eq!(kin1.position, Vector3::new(0, 1_000_000, 0));
    // half a second later the server advances x by 5 units and stops
    w.move_user(7, Vector2::new(0, 0), 1_500).unwrap();
    let kin2 = w.get_user(7).unwrap().kin;
    assert_eq!(kin2.position, Vector3::new(5 * SCALE, 1_000_000, 0));
    assert_eq!(kin2.direction, Vector2::new(0, 0));
    assert_eq!(kin2.last_update, 1_500);
}

#[test]
fn repeated_zero_moves_hold_position() {
    let mut w = World::new(2);
    w.client_connected(7, Vector3::new(11, 22, 33), 0);
    for t in [100u64, 2_000, 50_000] {
        w.move_user(7, Vector2::new(0, 0), t).unwrap();
        let kin = w.get_user(7).unwrap().kin;
        assert_eq!(kin.position, Vector3::new(11, 22, 33));
        assert_eq!(kin.direction, Vector2::new(0, 0));
    }
}

#[test]
fn tiny_input_through_movement_stores_zero_direction() {
    let mut w = World::new(2);
    w.client_connected(7, spawn(), 0);
    w.move_user(7, Vector2::new(100, 0), 10).unwrap();
    assert_eq!(w.get_user(7).unwrap().kin.direction, Vector2::new(0, 0));
}

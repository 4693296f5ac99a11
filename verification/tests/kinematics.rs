use lobby_server::kinematics::{step, normalize_input, KinematicState, PLAYER_SPEED};
use lobby_server::vectors::{Vector2, Vector3, SCALE};

fn standing(position: Vector3, last_update: u64) -> KinematicState {
    KinematicState {
        position,
        direction: Vector2::new(0, 0),
        speed: PLAYER_SPEED,
        last_update,
    }
}

#[test]
fn extrapolation_half_second() {
    // speed 10.0, previous direction (1, 0), half a second elapsed:
    // x advances by 5.0, y and z stay put
    let s = KinematicState {
        position: Vector3::new(0, 1_000_000, 2_000_000),
        direction: Vector2::new(SCALE, 0),
        speed: PLAYER_SPEED,
        last_update: 1_000,
    };
    let r = step(&s, Vector2::new(0, 0), 1_500);
    assert_eq!(r.position.x, 5 * SCALE);
    assert_eq!(r.position.y, 1_000_000);
    assert_eq!(r.position.z, 2_000_000);
    assert_eq!(r.direction, Vector2::new(0, 0));
    assert_eq!(r.last_update, 1_500);
    assert_eq!(r.speed, PLAYER_SPEED);
}

#[test]
fn second_axis_of_direction_drives_third_axis() {
    // the plane direction's second component moves the z axis
    let s = KinematicState {
        position: Vector3::new(0, 0, 0),
        direction: Vector2::new(0, -SCALE),
        speed: PLAYER_SPEED,
        last_update: 0,
    };
    let r = step(&s, Vector2::new(0, 0), 100);
    assert_eq!(r.position.x, 0);
    assert_eq!(r.position.y, 0);
    assert_eq!(r.position.z, -SCALE);
}

#[test]
fn stop_is_idempotent() {
    // a stopped state fed zero inputs never moves, whatever time passes
    let s0 = standing(Vector3::new(123, 456, 789), 1_000);
    let s1 = step(&s0, Vector2::new(0, 0), 5_000);
    let s2 = step(&s1, Vector2::new(0, 0), 60_000);
    let s3 = step(&s2, Vector2::new(0, 0), 1_000_000);
    assert_eq!(s3.position, Vector3::new(123, 456, 789));
    assert_eq!(s3.direction, Vector2::new(0, 0));
}

#[test]
fn normalization_of_three_four_input() {
    // input (3, 4) is stored as the unit direction (0.6, 0.8)
    let s0 = standing(Vector3::new(0, 0, 0), 0);
    let r = step(&s0, Vector2::new(3 * SCALE, 4 * SCALE), 10);
    assert_eq!(r.direction, Vector2::new(600_000, 800_000));
    // and the position did not move yet: the previous direction was zero
    assert_eq!(r.position, Vector3::new(0, 0, 0));
}

#[test]
fn tiny_input_normalizes_to_zero() {
    // input (0.0001, 0) has squared magnitude below the threshold
    let r = normalize_input(Vector2::new(100, 0));
    assert_eq!(r, Vector2::new(0, 0));
}

#[test]
fn threshold_is_on_squared_magnitude() {
    // squared magnitude exactly at the threshold still counts as zero;
    // just above it, the input is kept and normalized
    let at = Vector2::new(31_622, 0);
    assert!(at.sqr_magnitude() <= 1_000_000_000);
    assert_eq!(normalize_input(at), Vector2::new(0, 0));
    let above = Vector2::new(31_623, 0);
    assert!(above.sqr_magnitude() > 1_000_000_000);
    assert_eq!(normalize_input(above), Vector2::new(SCALE, 0));
}

#[test]
fn future_stamp_clamps_elapsed_time_to_zero() {
    // a stored stamp later than `now` moves nothing
    let s = KinematicState {
        position: Vector3::new(7, 7, 7),
        direction: Vector2::new(SCALE, 0),
        speed: PLAYER_SPEED,
        last_update: 10_000,
    };
    let r = step(&s, Vector2::new(SCALE, 0), 5_000);
    assert_eq!(r.position, Vector3::new(7, 7, 7));
    assert_eq!(r.last_update, 5_000);
}

#[test]
fn moving_direction_updates_even_while_advancing() {
    // one second at speed 10 along (0.6, 0.8): x gains 6, z gains 8
    let s = KinematicState {
        position: Vector3::new(0, 0, 0),
        direction: Vector2::new(600_000, 800_000),
        speed: PLAYER_SPEED,
        last_update: 0,
    };
    let r = step(&s, Vector2::new(-5 * SCALE, 0), 1_000);
    assert_eq!(r.position.x, 6 * SCALE);
    assert_eq!(r.position.z, 8 * SCALE);
    assert_eq!(r.direction, Vector2::new(-SCALE, 0));
}

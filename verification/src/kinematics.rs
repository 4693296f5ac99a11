use vstd::prelude::*;
use vstd::math::abs;
use crate::vectors::{
    Vector2, Vector3, SCALE, spec_sqr2, spec_normalized2, div_trunc, lemma_normalized2_bounded,
};

verus! {

/// The movement speed of every player, in coordinate steps per second
/// (ten world units per second).
pub const PLAYER_SPEED: u32 = 10_000_000;

/// The movement-enable and normalization threshold: an input or stored
/// direction whose squared magnitude (in squared coordinate steps) does
/// not exceed this counts as standing still.
pub const EPS_SQ: u128 = 1_000_000_000;

/// Timestamps are in milliseconds.
pub const MILLIS_PER_SECOND: u64 = 1000;

/// The authoritative kinematic record of one user: where the server
/// last placed the user, in which direction the user is heading, and
/// when the record was last brought up to date.
#[derive(Clone, Copy, PartialEq, Eq, Structural, Debug)]
pub struct KinematicState {
    pub position: Vector3,
    pub direction: Vector2,
    pub speed: u32,
    pub last_update: u64,
}

/// A stored direction is the zero vector or a normalized input, so each
/// component stays within one scaled unit.
pub open spec fn dir_bounded(v: Vector2) -> bool {
    &&& -SCALE <= v.x <= SCALE
    &&& -SCALE <= v.y <= SCALE
}

/// Well-formedness of a stored kinematic record.
pub open spec fn kin_wf(s: KinematicState) -> bool {
    dir_bounded(s.direction)
}

/// Clamping into the coordinate type.
pub open spec fn clamp_i64(v: int) -> int {
    if v < i64::MIN as int {
        i64::MIN as int
    } else if v > i64::MAX as int {
        i64::MAX as int
    } else {
        v
    }
}

/// Elapsed milliseconds since the last update, clamped at zero if the
/// stored stamp is somehow in the future.
pub open spec fn spec_dt(last: u64, now: u64) -> int {
    if now >= last {
        now - last
    } else {
        0
    }
}

/// One axis advanced by direction times speed times elapsed time; the
/// product is brought from scaled milliseconds back to coordinate steps
/// and the result saturates at the coordinate type's ends.
pub open spec fn spec_advance(p: i64, d: i64, speed: u32, dt_ms: int) -> int {
    clamp_i64(
        p + div_trunc(
            d as int * speed as int * dt_ms,
            SCALE as int * MILLIS_PER_SECOND as int,
        ),
    )
}

/// The normalization applied to a submitted input direction: inputs at
/// or below the threshold become the zero vector, anything else the
/// unit vector of the input.
pub open spec fn spec_norm_input(v: Vector2) -> Vector2 {
    if spec_sqr2(v) > EPS_SQ as int {
        spec_normalized2(v)
    } else {
        Vector2 { x: 0, y: 0 }
    }
}

/// One movement step: if the previously stored direction is above the
/// threshold, the two horizontal axes advance along it by speed times
/// elapsed time (the vertical axis never moves); the stored direction
/// becomes the normalized input and the stamp becomes `now`.
pub open spec fn spec_step(s: KinematicState, input: Vector2, now: u64) -> KinematicState {
    let dt = spec_dt(s.last_update, now);
    let position = if spec_sqr2(s.direction) > EPS_SQ as int {
        Vector3 {
            x: spec_advance(s.position.x, s.direction.x, s.speed, dt) as i64,
            y: s.position.y,
            z: spec_advance(s.position.z, s.direction.y, s.speed, dt) as i64,
        }
    } else {
        s.position
    };
    KinematicState {
        position,
        direction: spec_norm_input(input),
        speed: s.speed,
        last_update: now,
    }
}

/// A normalized input direction is bounded, whatever the input was.
pub proof fn lemma_norm_input_bounded(v: Vector2)
    ensures
        dir_bounded(spec_norm_input(v)),
{
    if spec_sqr2(v) > EPS_SQ as int {
        lemma_normalized2_bounded(v);
    }
}

/// What a movement step stores as the direction is exactly the
/// normalized input: the zero vector for inputs at or below the
/// threshold, a bounded unit vector otherwise. No un-normalized
/// direction is ever stored.
pub proof fn lemma_step_direction_normalized(s: KinematicState, input: Vector2, now: u64)
    ensures
        spec_step(s, input, now).direction == spec_norm_input(input),
        dir_bounded(spec_step(s, input, now).direction),
{
    lemma_norm_input_bounded(input);
}

/// The vertical axis is never advanced by the movement logic, whatever
/// the stored direction and the elapsed time.
pub proof fn lemma_step_keeps_vertical_axis(s: KinematicState, input: Vector2, now: u64)
    ensures
        spec_step(s, input, now).position.y == s.position.y,
{
}

/// Movement idempotence on stop: with a zero stored direction and a
/// below-threshold input, a step leaves the position unchanged and the
/// stored direction zero, so any chain of such steps never moves the
/// position, whatever time elapses between them.
pub proof fn lemma_stop_is_idempotent(s: KinematicState, input: Vector2, now: u64)
    requires
        s.direction == (Vector2 { x: 0, y: 0 }),
        spec_sqr2(input) <= EPS_SQ as int,
    ensures
        spec_step(s, input, now).position == s.position,
        spec_step(s, input, now).direction == (Vector2 { x: 0, y: 0 }),
        spec_step(s, input, now).speed == s.speed,
{
    assert(spec_sqr2(s.direction) == 0);
}

/// One axis of the dead-reckoning advance, saturating at the coordinate
/// type's ends.
fn advance_axis(p: i64, d: i64, speed: u32, dt_ms: u64) -> (r: i64)
    requires
        -SCALE <= d <= SCALE,
    ensures
        r as int == spec_advance(p, d, speed, dt_ms as int),
{
    let ad: u64 = if d >= 0 {
        d as u64
    } else {
        (-d) as u64
    };
    proof {
        assert(ad as int * speed as int <= 0x100000 * 0x1_0000_0000) by (nonlinear_arith)
            requires
                0 <= ad <= 0x100000,
                0 <= speed <= 0x1_0000_0000,
        ;
        assert(ad as int * speed as int * dt_ms as int
            <= 0x100000 * 0x1_0000_0000 * 0x1_0000_0000_0000_0000) by (nonlinear_arith)
            requires
                0 <= ad as int * speed as int <= 0x100000 * 0x1_0000_0000,
                0 <= dt_ms <= 0x1_0000_0000_0000_0000,
        ;
    }
    let num: u128 = (ad as u128) * (speed as u128) * (dt_ms as u128);
    let mag: u128 = num / ((SCALE as u128) * (MILLIS_PER_SECOND as u128));
    proof {
        let divisor = SCALE as int * MILLIS_PER_SECOND as int;
        assert(ad as int * speed as int * dt_ms as int
            == abs(d as int * speed as int * dt_ms as int)) by (nonlinear_arith)
            requires
                ad == abs(d as int),
                speed >= 0,
                dt_ms >= 0,
        ;
        assert(mag == abs(d as int * speed as int * dt_ms as int) as int / divisor);
        if d >= 0 {
            assert(d as int * speed as int * dt_ms as int >= 0) by (nonlinear_arith)
                requires
                    d >= 0,
                    speed >= 0,
                    dt_ms >= 0,
            ;
        } else {
            assert(d as int * speed as int * dt_ms as int <= 0) by (nonlinear_arith)
                requires
                    d <= 0,
                    speed >= 0,
                    dt_ms >= 0,
            ;
        }
    }
    let delta: i128 = if d >= 0 {
        mag as i128
    } else {
        -(mag as i128)
    };
    let raw: i128 = (p as i128) + delta;
    if raw < i64::MIN as i128 {
        i64::MIN
    } else if raw > i64::MAX as i128 {
        i64::MAX
    } else {
        raw as i64
    }
}

/// The executable normalization of a submitted input direction.
pub fn normalize_input(input: Vector2) -> (r: Vector2)
    ensures
        r == spec_norm_input(input),
{
    let sq: u128 = input.sqr_magnitude();
    if sq > EPS_SQ {
        input.normalized()
    } else {
        Vector2 { x: 0, y: 0 }
    }
}

/// One executable movement step over a stored kinematic record.
pub fn step(s: &KinematicState, input: Vector2, now: u64) -> (r: KinematicState)
    requires
        kin_wf(*s),
    ensures
        r == spec_step(*s, input, now),
        kin_wf(r),
{
    let dt: u64 = if now >= s.last_update {
        now - s.last_update
    } else {
        0
    };
    let sq: u128 = s.direction.sqr_magnitude();
    let position: Vector3 = if sq > EPS_SQ {
        Vector3 {
            x: advance_axis(s.position.x, s.direction.x, s.speed, dt),
            y: s.position.y,
            z: advance_axis(s.position.z, s.direction.y, s.speed, dt),
        }
    } else {
        s.position
    };
    let direction: Vector2 = normalize_input(input);
    proof {
        lemma_norm_input_bounded(input);
    }
    KinematicState { position, direction, speed: s.speed, last_update: now }
}

} // verus!

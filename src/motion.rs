use vstd::prelude::*;
use crate::vector::{Vec2, UNIT, tdiv, div_toward_zero, abs, lemma_abs_tdiv};
use crate::params::{Bounds, MAX_SPEED, MAX_ELAPSED_MS};

verus! {

/// Brings a coordinate that left `[0, max]` back in on the opposite edge,
/// keeping the overshoot: `max + e` becomes `e` and `-e` becomes `max - e`
/// (overshoots of a whole width or more are reduced modulo the width).
pub open spec fn wrap_spec(c: int, max: int) -> int {
    if c > max {
        (c - max) % max
    } else if c < 0 {
        max - ((-c) % max)
    } else {
        c
    }
}

/// Distance travelled along one heading component in `dt_ms` milliseconds,
/// rounded toward zero.
pub open spec fn step_spec(h: int, speed: int, dt_ms: int) -> int {
    tdiv(h * speed * dt_ms, UNIT * 1000)
}

pub open spec fn advance_spec(pos: Vec2, heading: Vec2, speed: int, dt_ms: int, b: Bounds) -> Vec2 {
    Vec2 {
        x: wrap_spec(pos.x + step_spec(heading.x as int, speed, dt_ms), b.width as int) as i64,
        y: wrap_spec(pos.y + step_spec(heading.y as int, speed, dt_ms), b.height as int) as i64,
    }
}

/// Wraps one coordinate into `[0, max]`.
pub fn wrap_coord(c: i64, max: i64) -> (r: i64)
    requires
        0 < max,
        c > i64::MIN,
    ensures
        r == wrap_spec(c as int, max as int),
        0 <= r <= max,
{
    if c > max {
        (c - max) % max
    } else if c < 0 {
        max - ((-c) % max)
    } else {
        c
    }
}

fn step(h: i64, speed: i64, dt_ms: i64) -> (r: i64)
    requires
        abs(h as int) <= UNIT,
        0 <= speed <= MAX_SPEED,
        0 <= dt_ms <= MAX_ELAPSED_MS,
    ensures
        r == step_spec(h as int, speed as int, dt_ms as int),
        abs(r as int) <= MAX_SPEED * MAX_ELAPSED_MS,
{
    proof {
        assert((speed as int) * (dt_ms as int) <= MAX_SPEED * MAX_ELAPSED_MS) by (nonlinear_arith)
            requires
                0 <= speed <= MAX_SPEED,
                0 <= dt_ms <= MAX_ELAPSED_MS,
        ;
    }
    let sd: i128 = (speed as i128) * (dt_ms as i128);
    proof {
        assert(0 <= sd <= MAX_SPEED * MAX_ELAPSED_MS) by (nonlinear_arith)
            requires
                sd == speed * dt_ms,
                0 <= speed <= MAX_SPEED,
                0 <= dt_ms <= MAX_ELAPSED_MS,
        ;
        assert(abs(h * sd) <= UNIT * (MAX_SPEED * MAX_ELAPSED_MS)) by (nonlinear_arith)
            requires
                abs(h as int) <= UNIT,
                0 <= sd <= MAX_SPEED * MAX_ELAPSED_MS,
        ;
        assert(h * sd == h * speed * dt_ms) by (nonlinear_arith)
            requires
                sd == speed * dt_ms,
        ;
    }
    let q = div_toward_zero((h as i128) * sd, (UNIT as i128) * 1000);
    proof {
        let n = abs(h * sd);
        assert(n / (UNIT * 1000) <= n) by (nonlinear_arith)
            requires
                n >= 0,
        ;
        lemma_abs_tdiv(h * sd, UNIT * 1000);
    }
    q as i64
}

/// Moves `pos` along `heading` at `speed` for `dt_ms` milliseconds, then wraps
/// it into the world.
pub fn advance(pos: Vec2, heading: Vec2, speed: i64, dt_ms: i64, b: Bounds) -> (r: Vec2)
    requires
        b.wf(),
        b.contains(pos),
        abs(heading.x as int) <= UNIT,
        abs(heading.y as int) <= UNIT,
        0 <= speed <= MAX_SPEED,
        0 <= dt_ms <= MAX_ELAPSED_MS,
    ensures
        r == advance_spec(pos, heading, speed as int, dt_ms as int, b),
        b.contains(r),
        dt_ms == 0 ==> r == pos,
{
    let sx = step(heading.x, speed, dt_ms);
    let sy = step(heading.y, speed, dt_ms);
    proof {
        if dt_ms == 0 {
            assert(heading.x * speed * dt_ms == 0 && heading.y * speed * dt_ms == 0) by (nonlinear_arith)
                requires
                    dt_ms == 0,
            ;
        }
    }
    Vec2 { x: wrap_coord(pos.x + sx, b.width), y: wrap_coord(pos.y + sy, b.height) }
}

} // verus!

use vstd::prelude::*;
use crate::vector::{Vec2, UNIT, abs, unit_of, normalize, near_unit};
use crate::params::{Factors, MAX_COORD, MAX_WEIGHT, MAX_ELAPSED_MS};
use crate::neighbors::{Agent, NeighborSummary, agent_ok, summary_ok};

verus! {

/// Weight of the current heading against the contributions, which are
/// weighted per millisecond.
pub const INERTIA: i64 = 1000;

/// The direction from `from` to `to`, if `to` is given and differs from `from`.
pub open spec fn toward(from: Vec2, to: Option<Vec2>) -> Option<Vec2> {
    match to {
        Some(t) => unit_of(Vec2 { x: (t.x - from.x) as i64, y: (t.y - from.y) as i64 }),
        None => None,
    }
}

/// The direction of `h`, if given and not zero.
pub open spec fn direction_of(h: Option<Vec2>) -> Option<Vec2> {
    match h {
        Some(v) => unit_of(v),
        None => None,
    }
}

/// The desired directions of cohesion, alignment, separation and goal seeking.
pub open spec fn cohesion_dir(a: Agent, s: NeighborSummary) -> Option<Vec2> {
    toward(a.position, s.flock_center)
}

pub open spec fn alignment_dir(s: NeighborSummary) -> Option<Vec2> {
    direction_of(s.flock_heading)
}

pub open spec fn separation_dir(a: Agent, s: NeighborSummary) -> Option<Vec2> {
    match s.avoid_center {
        Some(c) => toward(c, Some(a.position)),
        None => None,
    }
}

pub open spec fn goal_dir(a: Agent, p: Factors) -> Option<Vec2> {
    toward(a.position, p.goal_position)
}

/// A contribution fires when its direction exists and its weight over the
/// elapsed time is positive.
pub open spec fn fires(d: Option<Vec2>, w: int, dt: int) -> bool {
    d is Some && w * dt > 0
}

pub open spec fn any_fires(a: Agent, s: NeighborSummary, p: Factors, dt: int) -> bool {
    ||| fires(cohesion_dir(a, s), p.cohesion_weight as int, dt)
    ||| fires(alignment_dir(s), p.alignment_weight as int, dt)
    ||| fires(separation_dir(a, s), p.separation_weight as int, dt)
    ||| fires(goal_dir(a, p), p.goal_weight as int, dt)
}

pub open spec fn part_x(d: Option<Vec2>, k: int) -> int {
    match d {
        Some(u) => u.x * k,
        None => 0,
    }
}

pub open spec fn part_y(d: Option<Vec2>, k: int) -> int {
    match d {
        Some(u) => u.y * k,
        None => 0,
    }
}

/// The current heading plus every weighted contribution, before renormalisation.
pub open spec fn steering_vector(a: Agent, s: NeighborSummary, p: Factors, dt: int) -> Vec2 {
    let kc = p.cohesion_weight * dt;
    let ka = p.alignment_weight * dt;
    let ks = p.separation_weight * dt;
    let kg = p.goal_weight * dt;
    Vec2 {
        x: (INERTIA * a.heading.x + part_x(cohesion_dir(a, s), kc) + part_x(alignment_dir(s), ka)
            + part_x(separation_dir(a, s), ks) + part_x(goal_dir(a, p), kg)) as i64,
        y: (INERTIA * a.heading.y + part_y(cohesion_dir(a, s), kc) + part_y(alignment_dir(s), ka)
            + part_y(separation_dir(a, s), ks) + part_y(goal_dir(a, p), kg)) as i64,
    }
}

/// The new heading: unchanged when flocking is off, when no contribution
/// fires, or when the sum cancels to zero; otherwise the sum renormalised.
pub open spec fn steer_spec(a: Agent, s: NeighborSummary, p: Factors, dt: int) -> Vec2 {
    if !p.flocking_enabled || !any_fires(a, s, p, dt) {
        a.heading
    } else {
        match unit_of(steering_vector(a, s, p, dt)) {
            Some(h) => h,
            None => a.heading,
        }
    }
}

fn offset_direction(from: Vec2, to: Option<Vec2>) -> (r: Option<Vec2>)
    requires
        0 <= from.x <= MAX_COORD,
        0 <= from.y <= MAX_COORD,
        to matches Some(t) ==> 0 <= t.x <= MAX_COORD && 0 <= t.y <= MAX_COORD,
    ensures
        r == toward(from, to),
        r matches Some(u) ==> near_unit(u),
{
    match to {
        Some(t) => normalize(Vec2 { x: t.x - from.x, y: t.y - from.y }),
        None => None,
    }
}

fn weighted(d: Option<Vec2>, w: i64, dt: i64) -> (r: Vec2)
    requires
        d matches Some(u) ==> near_unit(u),
        0 <= w <= MAX_WEIGHT,
        0 <= dt <= MAX_ELAPSED_MS,
    ensures
        r.x == part_x(d, w * dt),
        r.y == part_y(d, w * dt),
        abs(r.x as int) <= UNIT * (MAX_WEIGHT * MAX_ELAPSED_MS),
        abs(r.y as int) <= UNIT * (MAX_WEIGHT * MAX_ELAPSED_MS),
{
    proof {
        assert(0 <= w * dt <= MAX_WEIGHT * MAX_ELAPSED_MS) by (nonlinear_arith)
            requires
                0 <= w <= MAX_WEIGHT,
                0 <= dt <= MAX_ELAPSED_MS,
        ;
    }
    let k = w * dt;
    match d {
        Some(u) => {
            proof {
                assert(abs(u.x * k) <= UNIT * (MAX_WEIGHT * MAX_ELAPSED_MS) && abs(u.y * k) <= UNIT
                    * (MAX_WEIGHT * MAX_ELAPSED_MS)) by (nonlinear_arith)
                    requires
                        abs(u.x as int) <= UNIT,
                        abs(u.y as int) <= UNIT,
                        0 <= k <= MAX_WEIGHT * MAX_ELAPSED_MS,
                ;
            }
            Vec2 { x: u.x * k, y: u.y * k }
        },
        None => Vec2 { x: 0, y: 0 },
    }
}

/// Blends the current heading of `a` with its flocking contributions.
pub fn steer(a: Agent, s: NeighborSummary, p: &Factors, dt: i64) -> (r: Vec2)
    requires
        agent_ok(a),
        summary_ok(s),
        p.steering_ok(),
        0 <= dt <= MAX_ELAPSED_MS,
    ensures
        r == steer_spec(a, s, *p, dt as int),
        near_unit(r),
{
    if !p.flocking_enabled {
        return a.heading;
    }
    let cd = offset_direction(a.position, s.flock_center);
    let ad = match s.flock_heading {
        Some(h) => normalize(h),
        None => None,
    };
    let sd = match s.avoid_center {
        Some(c) => offset_direction(c, Some(a.position)),
        None => None,
    };
    let gd = offset_direction(a.position, p.goal_position);
    let fires_any = (cd.is_some() && p.cohesion_weight > 0) || (ad.is_some() && p.alignment_weight
        > 0) || (sd.is_some() && p.separation_weight > 0) || (gd.is_some() && p.goal_weight > 0);
    if !fires_any || dt == 0 {
        proof {
            assert(!any_fires(a, s, *p, dt as int)) by (nonlinear_arith)
                requires
                    !fires_any || dt == 0,
                    fires_any == ((cd is Some && p.cohesion_weight > 0) || (ad is Some
                        && p.alignment_weight > 0) || (sd is Some && p.separation_weight > 0) || (
                    gd is Some && p.goal_weight > 0)),
                    cd == cohesion_dir(a, s),
                    ad == alignment_dir(s),
                    sd == separation_dir(a, s),
                    gd == goal_dir(a, *p),
                    p.cohesion_weight >= 0,
                    p.alignment_weight >= 0,
                    p.separation_weight >= 0,
                    p.goal_weight >= 0,
                    dt >= 0,
            ;
        }
        return a.heading;
    }
    proof {
        assert(any_fires(a, s, *p, dt as int)) by (nonlinear_arith)
            requires
                fires_any,
                dt > 0,
                fires_any == ((cd is Some && p.cohesion_weight > 0) || (ad is Some
                    && p.alignment_weight > 0) || (sd is Some && p.separation_weight > 0) || (gd is Some
                    && p.goal_weight > 0)),
                cd == cohesion_dir(a, s),
                ad == alignment_dir(s),
                sd == separation_dir(a, s),
                gd == goal_dir(a, *p),
        ;
    }
    let c = weighted(cd, p.cohesion_weight, dt);
    let al = weighted(ad, p.alignment_weight, dt);
    let se = weighted(sd, p.separation_weight, dt);
    let g = weighted(gd, p.goal_weight, dt);
    let raw = Vec2 {
        x: INERTIA * a.heading.x + c.x + al.x + se.x + g.x,
        y: INERTIA * a.heading.y + c.y + al.y + se.y + g.y,
    };
    match normalize(raw) {
        Some(h) => h,
        None => a.heading,
    }
}

} // verus!

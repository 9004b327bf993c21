use vstd::prelude::*;
use crate::vector::{Vec2, unit_of, lemma_unit_of, dot, tdiv};
use crate::params::{Bounds, Factors, MAX_WEIGHT, MAX_ELAPSED_MS};
use crate::neighbors::{
    Agent, all_ok, dist2, summary_of, sum_where, flock_pick, close_pick, one, pos_x, pos_y, head_x,
};
use crate::steering::{
    steer_spec, steering_vector, separation_dir, cohesion_dir, alignment_dir, goal_dir, INERTIA,
};
use crate::world::{tick_spec, tick_agent};
use crate::motion::wrap_spec;

verus! {

/// The population after `k` ticks with the same parameters and elapsed time.
pub open spec fn run(agents: Seq<Agent>, p: Factors, dt: int, b: Bounds, k: nat) -> Seq<Agent>
    decreases k,
{
    if k == 0 {
        agents
    } else {
        tick_spec(run(agents, p, dt, b, (k - 1) as nat), p, dt, b)
    }
}

/// A sum over indices that are never picked is zero.
pub proof fn lemma_sum_none(k: int, pick: spec_fn(int) -> bool, val: spec_fn(int) -> int)
    requires
        forall|j: int| 0 <= j < k ==> !#[trigger] pick(j),
    ensures
        sum_where(k, pick, val) == 0,
    decreases k,
{
    if k > 0 {
        lemma_sum_none(k - 1, pick, val);
    }
}

/// With flocking disabled a tick never changes a heading, whatever the
/// neighbours, the weights or the elapsed time.
pub proof fn lemma_no_flocking_keeps_headings(agents: Seq<Agent>, p: Factors, dt: int, b: Bounds)
    requires
        !p.flocking_enabled,
    ensures
        tick_spec(agents, p, dt, b).len() == agents.len(),
        forall|i: int|
            0 <= i < agents.len() ==> (#[trigger] tick_spec(agents, p, dt, b)[i]).heading
                == agents[i].heading,
{
}

/// An agent with no other agent within its perception radius (nor within its
/// separation radius), and no goal set, keeps its heading through a tick.
pub proof fn lemma_isolated_keeps_heading(agents: Seq<Agent>, i: int, p: Factors, dt: int, b: Bounds)
    requires
        0 <= i < agents.len(),
        p.goal_position is None,
        forall|j: int|
            0 <= j < agents.len() && j != i ==> dist2(agents[i].position, #[trigger] agents[j].position)
                > p.perception_radius * p.perception_radius && dist2(
                agents[i].position,
                agents[j].position,
            ) > p.separation_radius * p.separation_radius,
    ensures
        tick_spec(agents, p, dt, b)[i].heading == agents[i].heading,
{
    let n = agents.len() as int;
    let fp = flock_pick(agents, i, p);
    let cp = close_pick(agents, i, p);
    assert forall|j: int| 0 <= j < n implies !#[trigger] fp(j) by {
        if j != i {
            assert(dist2(agents[i].position, agents[j].position) > p.perception_radius
                * p.perception_radius);
        }
    }
    assert forall|j: int| 0 <= j < n implies !#[trigger] cp(j) by {
        if j != i {
            assert(dist2(agents[i].position, agents[j].position) > p.separation_radius
                * p.separation_radius);
        }
    }
    lemma_sum_none(n, fp, one());
    lemma_sum_none(n, cp, one());
    let s = summary_of(agents, i, p);
    assert(s.flock_center is None && s.flock_heading is None && s.avoid_center is None);
    assert(tick_spec(agents, p, dt, b)[i] == tick_agent(agents, i, p, dt, b));
}

/// A lone agent with no goal keeps its heading through any number of ticks.
pub proof fn lemma_lone_agent_keeps_heading(agents: Seq<Agent>, p: Factors, dt: int, b: Bounds, k: nat)
    requires
        agents.len() == 1,
        p.goal_position is None,
    ensures
        run(agents, p, dt, b, k).len() == 1,
        run(agents, p, dt, b, k)[0].heading == agents[0].heading,
    decreases k,
{
    if k > 0 {
        lemma_lone_agent_keeps_heading(agents, p, dt, b, (k - 1) as nat);
        let prev = run(agents, p, dt, b, (k - 1) as nat);
        lemma_isolated_keeps_heading(prev, 0, p, dt, b);
    }
}

/// Of two agents within separation range of each other, with cohesion,
/// alignment and goal seeking switched off and a positive separation weight,
/// each one's steering vector leans away from the other: its component toward
/// the other is strictly smaller than that of the current heading, and it
/// points away from the other whenever the current heading does not point
/// toward it. The new heading is that steering vector renormalised.
pub proof fn lemma_separation_steers_away(agents: Seq<Agent>, i: int, p: Factors, dt: int)
    requires
        agents.len() == 2,
        i == 0 || i == 1,
        all_ok(agents),
        p.steering_ok(),
        p.flocking_enabled,
        0 <= p.separation_radius,
        0 < dt <= MAX_ELAPSED_MS,
        p.separation_weight > 0,
        p.cohesion_weight == 0,
        p.alignment_weight == 0,
        p.goal_position is None,
        agents[0].position != agents[1].position,
        dist2(agents[0].position, agents[1].position) <= p.separation_radius * p.separation_radius,
    ensures
        ({
            let a = agents[i];
            let o = agents[1 - i];
            let tx = o.position.x - a.position.x;
            let ty = o.position.y - a.position.y;
            let s = summary_of(agents, i, p);
            let sv = steering_vector(a, s, p, dt);
            &&& dot(sv.x as int, sv.y as int, tx, ty) < INERTIA * dot(
                a.heading.x as int,
                a.heading.y as int,
                tx,
                ty,
            )
            &&& (dot(a.heading.x as int, a.heading.y as int, tx, ty) <= 0 ==> dot(
                sv.x as int,
                sv.y as int,
                tx,
                ty,
            ) < 0)
            &&& steer_spec(a, s, p, dt) == match unit_of(sv) {
                Some(h) => h,
                None => a.heading,
            }
        }),
{
    let a = agents[i];
    let oi = 1 - i;
    let o = agents[oi];
    assert(all_ok(agents) ==> crate::neighbors::agent_ok(agents[i]) && crate::neighbors::agent_ok(agents[oi]));
    let fp = flock_pick(agents, i, p);
    let cp = close_pick(agents, i, p);
    let (ax, ay, ox, oy) = (a.position.x as int, a.position.y as int, o.position.x as int, o.position.y as int);
    assert((ax - ox) * (ax - ox) == (ox - ax) * (ox - ax) && (ay - oy) * (ay - oy) == (oy - ay) * (oy - ay))
        by (nonlinear_arith);
    assert(dist2(a.position, o.position) == dist2(agents[0].position, agents[1].position));
    assert(!fp(i) && !fp(oi) && !cp(i) && cp(oi));
    assert forall|j: int| 0 <= j < 2 implies !#[trigger] fp(j) by {}
    lemma_sum_none(2, fp, one());
    lemma_sum_none(2, fp, head_x(agents));
    assert(sum_where(0, cp, one()) == 0);
    assert(sum_where(0, cp, pos_x(agents)) == 0);
    assert(sum_where(0, cp, pos_y(agents)) == 0);
    assert(sum_where(1, cp, one()) == if cp(0) { 1int } else { 0 });
    assert(sum_where(1, cp, pos_x(agents)) == if cp(0) { agents[0].position.x as int } else { 0 });
    assert(sum_where(1, cp, pos_y(agents)) == if cp(0) { agents[0].position.y as int } else { 0 });
    assert(sum_where(2, cp, one()) == 1);
    assert(sum_where(2, cp, pos_x(agents)) == o.position.x);
    assert(sum_where(2, cp, pos_y(agents)) == o.position.y);
    let s = summary_of(agents, i, p);
    assert(tdiv(o.position.x as int, 1) == o.position.x && tdiv(o.position.y as int, 1) == o.position.y);
    assert(s.avoid_center == Some(o.position));
    assert(s.flock_center is None && s.flock_heading is None);
    let v = Vec2 { x: (a.position.x - o.position.x) as i64, y: (a.position.y - o.position.y) as i64 };
    lemma_unit_of(v);
    let u = unit_of(v).unwrap();
    assert(separation_dir(a, s) == Some(u));
    assert(cohesion_dir(a, s) is None && alignment_dir(s) is None && goal_dir(a, p) is None);
    let k = p.separation_weight * dt;
    assert(0 < k <= MAX_WEIGHT * MAX_ELAPSED_MS) by (nonlinear_arith)
        requires
            0 < p.separation_weight <= MAX_WEIGHT,
            0 < dt <= MAX_ELAPSED_MS,
            k == p.separation_weight * dt,
    ;
    let hx = a.heading.x as int;
    let hy = a.heading.y as int;
    let ux = u.x as int;
    let uy = u.y as int;
    assert(-1024 * (MAX_WEIGHT * MAX_ELAPSED_MS) <= ux * k <= 1024 * (MAX_WEIGHT * MAX_ELAPSED_MS) && -1024 * (MAX_WEIGHT * MAX_ELAPSED_MS) <= ux * k
        && -1024 * (MAX_WEIGHT * MAX_ELAPSED_MS) <= uy * k <= 1024 * (MAX_WEIGHT * MAX_ELAPSED_MS)) by (nonlinear_arith)
        requires
            -1024 <= ux <= 1024,
            -1024 <= uy <= 1024,
            0 < k <= MAX_WEIGHT * MAX_ELAPSED_MS,
    ;
    let sv = steering_vector(a, s, p, dt);
    assert(sv.x == INERTIA * hx + ux * k && sv.y == INERTIA * hy + uy * k);
    let tx = o.position.x - a.position.x;
    let ty = o.position.y - a.position.y;
    let vx = v.x as int;
    let vy = v.y as int;
    assert(vx == -tx && vy == -ty);
    let svx = sv.x as int;
    let svy = sv.y as int;
    let i0 = INERTIA as int;
    assert(svx * tx == i0 * (hx * tx) - k * (ux * vx)) by (nonlinear_arith)
        requires
            svx == i0 * hx + ux * k,
            vx == -tx,
    ;
    assert(svy * ty == i0 * (hy * ty) - k * (uy * vy)) by (nonlinear_arith)
        requires
            svy == i0 * hy + uy * k,
            vy == -ty,
    ;
    assert(i0 * (hx * tx) + i0 * (hy * ty) == i0 * (hx * tx + hy * ty)) by (nonlinear_arith);
    assert(k * (ux * vx) + k * (uy * vy) == k * (ux * vx + uy * vy)) by (nonlinear_arith);
    assert(k * dot(ux, uy, v.x as int, v.y as int) > 0) by (nonlinear_arith)
        requires
            k > 0,
            dot(ux, uy, v.x as int, v.y as int) > 0,
    ;
    assert(dot(sv.x as int, sv.y as int, tx, ty) == svx * tx + svy * ty);
    assert(dot(sv.x as int, sv.y as int, tx, ty) < INERTIA * dot(hx, hy, tx, ty));
    assert(crate::steering::fires(separation_dir(a, s), p.separation_weight as int, dt));
}

/// Wrapping is exact: a coordinate that overshoots an edge by less than the
/// world's extent comes back in past the opposite edge by the same amount.
pub proof fn lemma_wrap_keeps_overshoot(max: int, e: int)
    requires
        0 < e < max,
    ensures
        wrap_spec(max + e, max) == e,
        wrap_spec(-e, max) == max - e,
{
    vstd::arithmetic::div_mod::lemma_small_mod(e as nat, max as nat);
}

} // verus!

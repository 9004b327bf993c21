use vstd::prelude::*;
use crate::vector::{Vec2, UNIT, abs, tdiv, div_toward_zero, lemma_abs_tdiv, near_unit};
use crate::params::{Factors, MAX_COORD};

verus! {

/// One simulated agent: where it is and where it is heading.
#[derive(Clone, Copy, PartialEq, Eq, Structural, Debug)]
pub struct Agent {
    pub position: Vec2,
    pub heading: Vec2,
}

/// What one agent perceives of the others during a tick.
#[derive(Clone, Copy, PartialEq, Eq, Structural, Debug)]
pub struct NeighborSummary {
    /// Average position of the flockmates, if any.
    pub flock_center: Option<Vec2>,
    /// Average heading of the flockmates, if any.
    pub flock_heading: Option<Vec2>,
    /// Average position of the agents that are too close, if any.
    pub avoid_center: Option<Vec2>,
    pub neighbor_count: usize,
    pub close_neighbor_count: usize,
}

/// Positions within the largest world and headings of unit length.
pub open spec fn agent_ok(a: Agent) -> bool {
    &&& 0 <= a.position.x <= MAX_COORD
    &&& 0 <= a.position.y <= MAX_COORD
    &&& near_unit(a.heading)
}

pub open spec fn all_ok(agents: Seq<Agent>) -> bool {
    forall|j: int| 0 <= j < agents.len() ==> agent_ok(#[trigger] agents[j])
}

pub open spec fn dist2(a: Vec2, b: Vec2) -> int {
    (a.x - b.x) * (a.x - b.x) + (a.y - b.y) * (a.y - b.y)
}

/// Agent `j` is within the separation radius of agent `me`.
pub open spec fn is_close(agents: Seq<Agent>, me: int, j: int, p: Factors) -> bool {
    j != me && dist2(agents[me].position, agents[j].position) <= p.separation_radius
        * p.separation_radius
}

/// Agent `j` is perceived by agent `me`, but is not too close to flock with.
pub open spec fn is_flockmate(agents: Seq<Agent>, me: int, j: int, p: Factors) -> bool {
    &&& j != me
    &&& p.separation_radius * p.separation_radius < dist2(agents[me].position, agents[j].position)
    &&& dist2(agents[me].position, agents[j].position) <= p.perception_radius * p.perception_radius
}

/// Sum of `val(j)` over the indices `j < k` that `pick` selects.
pub open spec fn sum_where(k: int, pick: spec_fn(int) -> bool, val: spec_fn(int) -> int) -> int
    decreases k,
{
    if k <= 0 {
        0
    } else {
        sum_where(k - 1, pick, val) + if pick(k - 1) { val(k - 1) } else { 0 }
    }
}

pub open spec fn close_pick(agents: Seq<Agent>, me: int, p: Factors) -> spec_fn(int) -> bool {
    |j: int| is_close(agents, me, j, p)
}

pub open spec fn flock_pick(agents: Seq<Agent>, me: int, p: Factors) -> spec_fn(int) -> bool {
    |j: int| is_flockmate(agents, me, j, p)
}

pub open spec fn one() -> spec_fn(int) -> int {
    |j: int| 1int
}

pub open spec fn pos_x(agents: Seq<Agent>) -> spec_fn(int) -> int {
    |j: int| agents[j].position.x as int
}

pub open spec fn pos_y(agents: Seq<Agent>) -> spec_fn(int) -> int {
    |j: int| agents[j].position.y as int
}

pub open spec fn head_x(agents: Seq<Agent>) -> spec_fn(int) -> int {
    |j: int| agents[j].heading.x as int
}

pub open spec fn head_y(agents: Seq<Agent>) -> spec_fn(int) -> int {
    |j: int| agents[j].heading.y as int
}

/// The average `(sx / n, sy / n)`, rounded toward zero, or `None` when `n` is zero.
pub open spec fn average(sx: int, sy: int, n: int) -> Option<Vec2> {
    if n == 0 {
        None
    } else {
        Some(Vec2 { x: tdiv(sx, n) as i64, y: tdiv(sy, n) as i64 })
    }
}

/// What agent `me` perceives of the other agents.
pub open spec fn summary_of(agents: Seq<Agent>, me: int, p: Factors) -> NeighborSummary {
    let n = agents.len() as int;
    let fp = flock_pick(agents, me, p);
    let cp = close_pick(agents, me, p);
    let fc = sum_where(n, fp, one());
    let cc = sum_where(n, cp, one());
    NeighborSummary {
        flock_center: average(sum_where(n, fp, pos_x(agents)), sum_where(n, fp, pos_y(agents)), fc),
        flock_heading: average(
            sum_where(n, fp, head_x(agents)),
            sum_where(n, fp, head_y(agents)),
            fc,
        ),
        avoid_center: average(sum_where(n, cp, pos_x(agents)), sum_where(n, cp, pos_y(agents)), cc),
        neighbor_count: fc as usize,
        close_neighbor_count: cc as usize,
    }
}

/// The summary holds averages of positions and headings of agents that are
/// `agent_ok`, so each average lies within the same bounds.
pub open spec fn summary_ok(s: NeighborSummary) -> bool {
    &&& (s.flock_center matches Some(c) ==> 0 <= c.x <= MAX_COORD && 0 <= c.y <= MAX_COORD)
    &&& (s.avoid_center matches Some(c) ==> 0 <= c.x <= MAX_COORD && 0 <= c.y <= MAX_COORD)
    &&& (s.flock_heading matches Some(h) ==> abs(h.x as int) <= UNIT && abs(h.y as int) <= UNIT)
}

proof fn lemma_average_within(s: int, n: int, lo: int, hi: int)
    requires
        n > 0,
        n * lo <= s <= n * hi,
        lo <= 0 <= hi,
    ensures
        lo <= tdiv(s, n) <= hi,
{
    lemma_abs_tdiv(s, n);
    let q = abs(s) / n;
    assert(q * n <= abs(s)) by {
        vstd::arithmetic::div_mod::lemma_fundamental_div_mod(abs(s), n);
        vstd::arithmetic::div_mod::lemma_mod_bound(abs(s), n);
        assert(q * n == n * q) by (nonlinear_arith);
    }
    if s >= 0 {
        assert(q <= hi) by (nonlinear_arith)
            requires
                q * n <= s,
                s <= n * hi,
                n > 0,
        ;
    } else {
        assert(-q >= lo) by (nonlinear_arith)
            requires
                q * n <= -s,
                n * lo <= s,
                n > 0,
        ;
    }
}

fn average_exec(sx: i128, sy: i128, n: i128, lo: Ghost<int>, hi: Ghost<int>) -> (r: Option<Vec2>)
    requires
        0 <= n <= 0xFFFF_FFFF_FFFF_FFFF,
        -MAX_COORD <= lo@ <= 0 <= hi@ <= MAX_COORD,
        n * lo@ <= sx <= n * hi@,
        n * lo@ <= sy <= n * hi@,
    ensures
        r == average(sx as int, sy as int, n as int),
        r matches Some(v) ==> lo@ <= v.x <= hi@ && lo@ <= v.y <= hi@,
{
    if n == 0 {
        None
    } else {
        proof {
            assert(n * lo@ >= -0xFFFF_FFFF_FFFF_FFFF * MAX_COORD && n * hi@ <= 0xFFFF_FFFF_FFFF_FFFF
                * MAX_COORD) by (nonlinear_arith)
                requires
                    0 <= n <= 0xFFFF_FFFF_FFFF_FFFF,
                    -MAX_COORD <= lo@ <= 0 <= hi@ <= MAX_COORD,
            ;
            lemma_average_within(sx as int, n as int, lo@, hi@);
            lemma_average_within(sy as int, n as int, lo@, hi@);
        }
        let x = div_toward_zero(sx, n);
        let y = div_toward_zero(sy, n);
        Some(Vec2 { x: x as i64, y: y as i64 })
    }
}

fn dist2_exec(a: Vec2, b: Vec2) -> (r: i128)
    requires
        0 <= a.x <= MAX_COORD,
        0 <= a.y <= MAX_COORD,
        0 <= b.x <= MAX_COORD,
        0 <= b.y <= MAX_COORD,
    ensures
        r == dist2(a, b),
{
    let dx: i128 = (a.x as i128) - (b.x as i128);
    let dy: i128 = (a.y as i128) - (b.y as i128);
    proof {
        assert(0 <= dx * dx <= MAX_COORD * MAX_COORD && 0 <= dy * dy <= MAX_COORD * MAX_COORD)
            by (nonlinear_arith)
            requires
                -MAX_COORD <= dx <= MAX_COORD,
                -MAX_COORD <= dy <= MAX_COORD,
        ;
    }
    dx * dx + dy * dy
}

/// Scans all agents and summarises those that agent `me` perceives: the ones
/// within the separation radius, to avoid, and the others within the
/// perception radius, to flock with. Agent `me` itself is never counted.
pub fn summarize(agents: &Vec<Agent>, me: usize, p: &Factors) -> (r: NeighborSummary)
    requires
        me < agents.len(),
        all_ok(agents@),
        0 <= p.separation_radius,
        0 <= p.perception_radius,
        p.separation_radius <= 0x400_0000_0000,
        p.perception_radius <= 0x400_0000_0000,
    ensures
        r == summary_of(agents@, me as int, *p),
        summary_ok(r),
{
    let ghost s = agents@;
    let ghost fp = flock_pick(s, me as int, *p);
    let ghost cp = close_pick(s, me as int, *p);
    let me_pos = agents[me].position;
    assert(agent_ok(s[me as int]));
    proof {
        assert(p.separation_radius * p.separation_radius <= 0x400_0000_0000 * 0x400_0000_0000int
            && p.perception_radius * p.perception_radius <= 0x400_0000_0000 * 0x400_0000_0000int)
            by (nonlinear_arith)
            requires
                0 <= p.separation_radius <= 0x400_0000_0000,
                0 <= p.perception_radius <= 0x400_0000_0000,
        ;
    }
    let sep2: i128 = (p.separation_radius as i128) * (p.separation_radius as i128);
    let per2: i128 = (p.perception_radius as i128) * (p.perception_radius as i128);
    let mut fc: i128 = 0;
    let mut fx: i128 = 0;
    let mut fy: i128 = 0;
    let mut hx: i128 = 0;
    let mut hy: i128 = 0;
    let mut cc: i128 = 0;
    let mut cx: i128 = 0;
    let mut cy: i128 = 0;
    let mut j: usize = 0;
    while j < agents.len()
        invariant
            s == agents@,
            fp == flock_pick(s, me as int, *p),
            cp == close_pick(s, me as int, *p),
            me < s.len(),
            me_pos == s[me as int].position,
            0 <= me_pos.x <= MAX_COORD,
            0 <= me_pos.y <= MAX_COORD,
            all_ok(s),
            sep2 == p.separation_radius * p.separation_radius,
            per2 == p.perception_radius * p.perception_radius,
            j <= s.len(),
            fc == sum_where(j as int, fp, one()),
            fx == sum_where(j as int, fp, pos_x(s)),
            fy == sum_where(j as int, fp, pos_y(s)),
            hx == sum_where(j as int, fp, head_x(s)),
            hy == sum_where(j as int, fp, head_y(s)),
            cc == sum_where(j as int, cp, one()),
            cx == sum_where(j as int, cp, pos_x(s)),
            cy == sum_where(j as int, cp, pos_y(s)),
            0 <= fc <= j,
            0 <= cc <= j,
            0 <= fx <= fc * MAX_COORD,
            0 <= fy <= fc * MAX_COORD,
            0 <= cx <= cc * MAX_COORD,
            0 <= cy <= cc * MAX_COORD,
            -fc * UNIT <= hx <= fc * UNIT,
            -fc * UNIT <= hy <= fc * UNIT,
        decreases s.len() - j,
    {
        let other = agents[j];
        assert(agent_ok(s[j as int]));
        let d2: i128 = dist2_exec(me_pos, other.position);
        assert(d2 == dist2(s[me as int].position, s[j as int].position));
        assert(fp(j as int) == is_flockmate(s, me as int, j as int, *p));
        assert(cp(j as int) == is_close(s, me as int, j as int, *p));
        if j != me && d2 <= sep2 {
            cc = cc + 1;
            cx = cx + other.position.x as i128;
            cy = cy + other.position.y as i128;
        }
        if j != me && sep2 < d2 && d2 <= per2 {
            fc = fc + 1;
            fx = fx + other.position.x as i128;
            fy = fy + other.position.y as i128;
            hx = hx + other.heading.x as i128;
            hy = hy + other.heading.y as i128;
        }
        j = j + 1;
    }
    let flock_center = average_exec(fx, fy, fc, Ghost(0), Ghost(MAX_COORD as int));
    let flock_heading = average_exec(hx, hy, fc, Ghost(-UNIT as int), Ghost(UNIT as int));
    let avoid_center = average_exec(cx, cy, cc, Ghost(0), Ghost(MAX_COORD as int));
    NeighborSummary {
        flock_center,
        flock_heading,
        avoid_center,
        neighbor_count: fc as usize,
        close_neighbor_count: cc as usize,
    }
}

} // verus!

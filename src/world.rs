use vstd::prelude::*;
use crate::vector::{Vec2, UNIT, normalize, near_unit, abs};
use crate::params::{Bounds, Factors, MAX_ELAPSED_MS, clamp_i64, elapsed_spec};
use crate::neighbors::{Agent, summarize, summary_of, agent_ok, all_ok};
use crate::steering::{steer, steer_spec};
use crate::motion::{advance, advance_spec};
use crate::random::random_between;

verus! {

/// How many times a random heading is drawn again when it comes out zero,
/// before falling back to heading along the x axis.
pub const MAX_HEADING_DRAWS: usize = 64;

/// An agent inside the world with a unit heading.
pub open spec fn agent_in(a: Agent, b: Bounds) -> bool {
    b.contains(a.position) && near_unit(a.heading)
}

pub open spec fn world_ok(agents: Seq<Agent>, b: Bounds) -> bool {
    &&& b.wf()
    &&& forall|j: int| 0 <= j < agents.len() ==> agent_in(#[trigger] agents[j], b)
}

/// Agent `i` after one tick: it steers from what it perceives in `agents`,
/// then moves along its new heading.
pub open spec fn tick_agent(agents: Seq<Agent>, i: int, p: Factors, dt: int, b: Bounds) -> Agent {
    let a = agents[i];
    let h = steer_spec(a, summary_of(agents, i, p), p, dt);
    Agent { position: advance_spec(a.position, h, p.speed as int, dt, b), heading: h }
}

/// All agents after one tick; every agent perceives the same snapshot.
pub open spec fn tick_spec(agents: Seq<Agent>, p: Factors, dt: int, b: Bounds) -> Seq<Agent> {
    Seq::new(agents.len(), |i: int| tick_agent(agents, i, p, dt, b))
}

/// The population of agents and the world they move in.
pub struct Simulation {
    agents: Vec<Agent>,
    bounds: Bounds,
}

impl Simulation {
    pub closed spec fn agents_spec(&self) -> Seq<Agent> {
        self.agents@
    }

    pub closed spec fn bounds_spec(&self) -> Bounds {
        self.bounds
    }

    pub open spec fn wf(&self) -> bool {
        world_ok(self.agents_spec(), self.bounds_spec())
    }

    /// An empty population in the given world.
    pub fn new(bounds: Bounds) -> (r: Simulation)
        requires
            bounds.wf(),
        ensures
            r.wf(),
            r.agents_spec().len() == 0,
            r.bounds_spec() == bounds,
    {
        Simulation { agents: Vec::new(), bounds }
    }

    /// A population given agent by agent; `None` unless every agent is inside
    /// the world and has a unit heading, and the world is well formed.
    pub fn with_agents(agents: Vec<Agent>, bounds: Bounds) -> (r: Option<Simulation>)
        ensures
            r is Some <==> world_ok(agents@, bounds),
            r matches Some(s) ==> s.agents_spec() == agents@ && s.bounds_spec() == bounds && s.wf(),
    {
        if !bounds_ok(bounds) {
            return None;
        }
        let mut i: usize = 0;
        while i < agents.len()
            invariant
                bounds.wf(),
                i <= agents.len(),
                forall|j: int| 0 <= j < i ==> agent_in(#[trigger] agents@[j], bounds),
            decreases agents.len() - i,
        {
            if !agent_in_exec(agents[i], bounds) {
                return None;
            }
            i = i + 1;
        }
        Some(Simulation { agents, bounds })
    }

    /// The agents as of the last completed tick.
    pub fn agents(&self) -> (r: Vec<Agent>)
        ensures
            r@ == self.agents_spec(),
    {
        self.agents.clone()
    }

    pub fn bounds(&self) -> (r: Bounds)
        ensures
            r == self.bounds_spec(),
    {
        self.bounds
    }

    /// Advances every agent by `elapsed_ms` milliseconds. Parameters and the
    /// elapsed time are first clamped to their valid ranges.
    pub fn tick(&mut self, elapsed_ms: i64, params: &Factors)
        requires
            old(self).wf(),
        ensures
            final(self).wf(),
            final(self).bounds_spec() == old(self).bounds_spec(),
            final(self).agents_spec() == tick_spec(
                old(self).agents_spec(),
                params.clamped_spec(old(self).bounds_spec()),
                elapsed_spec(elapsed_ms) as int,
                old(self).bounds_spec(),
            ),
    {
        let b = self.bounds;
        let p = params.clamped(b);
        let dt = clamp_i64(elapsed_ms, 0, MAX_ELAPSED_MS);
        let ghost snapshot = self.agents@;
        assert(all_ok(snapshot)) by {
            assert forall|j: int| 0 <= j < snapshot.len() implies agent_ok(#[trigger] snapshot[j]) by {
                assert(agent_in(snapshot[j], b));
            }
        }
        let mut next: Vec<Agent> = Vec::new();
        let mut i: usize = 0;
        while i < self.agents.len()
            invariant
                self.agents@ == snapshot,
                self.bounds == b,
                b.wf(),
                world_ok(snapshot, b),
                all_ok(snapshot),
                p == params.clamped_spec(b),
                p.valid(b),
                dt == elapsed_spec(elapsed_ms),
                0 <= dt <= MAX_ELAPSED_MS,
                i <= snapshot.len(),
                next@.len() == i,
                forall|k: int| 0 <= k < i ==> #[trigger] next@[k] == tick_agent(snapshot, k, p, dt as int, b),
                forall|k: int| 0 <= k < i ==> agent_in(#[trigger] next@[k], b),
            decreases snapshot.len() - i,
        {
            let a = self.agents[i];
            assert(agent_in(snapshot[i as int], b));
            let s = summarize(&self.agents, i, &p);
            let h = steer(a, s, &p, dt);
            let pos = advance(a.position, h, p.speed, dt, b);
            next.push(Agent { position: pos, heading: h });
            i = i + 1;
        }
        assert(next@ =~= tick_spec(snapshot, p, dt as int, b));
        self.agents = next;
    }

    /// Replaces the whole population by `count` agents placed uniformly at
    /// random in `bounds`, each with a random unit heading.
    pub fn reseed(&mut self, count: usize, bounds: Bounds)
        requires
            bounds.wf(),
        ensures
            final(self).wf(),
            final(self).agents_spec().len() == count,
            final(self).bounds_spec() == bounds,
    {
        let mut agents: Vec<Agent> = Vec::new();
        let mut i: usize = 0;
        while i < count
            invariant
                bounds.wf(),
                i <= count,
                agents@.len() == i,
                world_ok(agents@, bounds),
            decreases count - i,
        {
            let x = random_between(0, bounds.width);
            let y = random_between(0, bounds.height);
            let h = random_heading();
            agents.push(Agent { position: Vec2 { x, y }, heading: h });
            i = i + 1;
        }
        self.agents = agents;
        self.bounds = bounds;
    }
}

fn bounds_ok(b: Bounds) -> (r: bool)
    ensures
        r == b.wf(),
{
    0 < b.width && b.width <= crate::params::MAX_COORD && 0 < b.height && b.height
        <= crate::params::MAX_COORD
}

/// Whether `h` is a unit heading, as `near_unit` states it.
pub fn is_unit_heading(h: Vec2) -> (r: bool)
    ensures
        r == near_unit(h),
{
    if h.x < -UNIT || h.x > UNIT || h.y < -UNIT || h.y > UNIT {
        return false;
    }
    let x = h.x as i128;
    let y = h.y as i128;
    let ax: i128 = if x < 0 { -x } else { x };
    let ay: i128 = if y < 0 { -y } else { y };
    let u = UNIT as i128;
    proof {
        assert(0 <= x * x <= UNIT * UNIT && 0 <= y * y <= UNIT * UNIT && 0 <= (ax + 1) * (ax + 1) <= (UNIT + 1)
            * (UNIT + 1) && (ay + 1) * (ay + 1) <= (UNIT + 1) * (UNIT + 1)) by (nonlinear_arith)
            requires
                -UNIT <= x <= UNIT,
                -UNIT <= y <= UNIT,
                0 <= ax <= UNIT,
                0 <= ay <= UNIT,
        ;
        assert(ax == abs(h.x as int) && ay == abs(h.y as int));
    }
    x * x + y * y <= u * u + 2 && (ax + 1) * (ax + 1) + (ay + 1) * (ay + 1) > u * u
}

fn agent_in_exec(a: Agent, b: Bounds) -> (r: bool)
    ensures
        r == agent_in(a, b),
{
    0 <= a.position.x && a.position.x <= b.width && 0 <= a.position.y && a.position.y <= b.height
        && is_unit_heading(a.heading)
}

/// A random unit heading: a nonzero vector drawn uniformly from the square
/// `[-UNIT, UNIT]^2` and normalised. A zero draw is drawn again.
fn random_heading() -> (r: Vec2)
    ensures
        near_unit(r),
{
    let mut attempt: usize = 0;
    while attempt < MAX_HEADING_DRAWS
        invariant
            attempt <= MAX_HEADING_DRAWS,
        decreases MAX_HEADING_DRAWS - attempt,
    {
        let v = Vec2 { x: random_between(-UNIT, UNIT), y: random_between(-UNIT, UNIT) };
        if let Some(h) = normalize(v) {
            return h;
        }
        attempt = attempt + 1;
    }
    let fallback = Vec2 { x: UNIT, y: 0 };
    assert(1025int * 1025 + 1 * 1 > 1024int * 1024 && 1024int * 1024 + 0 * 0 <= 1024int * 1024 + 2)
        by (nonlinear_arith);
    assert(near_unit(fallback));
    fallback
}

} // verus!

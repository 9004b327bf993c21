use boids::motion::{advance, wrap_coord};
use boids::neighbors::{summarize, Agent};
use boids::params::{Bounds, Factors, MAX_SPEED, MAX_WEIGHT};
use boids::steering::steer;
use boids::vector::{normalize, Vec2, UNIT};
use boids::world::{is_unit_heading, Simulation};

fn v(x: i64, y: i64) -> Vec2 {
    Vec2 { x, y }
}

fn agent(px: i64, py: i64, hx: i64, hy: i64) -> Agent {
    Agent { position: v(px, py), heading: v(hx, hy) }
}

fn params() -> Factors {
    Factors {
        speed: 0,
        perception_radius: 50,
        separation_radius: 5,
        cohesion_weight: 0,
        alignment_weight: 0,
        separation_weight: 0,
        flocking_enabled: true,
        goal_position: None,
        goal_weight: 0,
    }
}

fn world() -> Bounds {
    Bounds { width: 100, height: 100 }
}

fn dot(a: Vec2, bx: i64, by: i64) -> i64 {
    a.x * bx + a.y * by
}

#[test]
fn normalize_gives_unit_direction() {
    assert_eq!(normalize(v(3, 4)), Some(v(614, 819)));
    assert_eq!(normalize(v(-5, 0)), Some(v(-UNIT, 0)));
    assert_eq!(normalize(v(0, 7)), Some(v(0, UNIT)));
    assert_eq!(normalize(v(3_000_000, 4_000_000)), Some(v(614, 819)));
}

#[test]
fn normalize_zero_is_none() {
    assert_eq!(normalize(v(0, 0)), None);
}

#[test]
fn unit_heading_check() {
    assert!(is_unit_heading(v(UNIT, 0)));
    assert!(is_unit_heading(v(614, 819)));
    assert!(!is_unit_heading(v(0, 0)));
    assert!(!is_unit_heading(v(UNIT + 1, 0)));
    assert!(!is_unit_heading(v(500, 500)));
}

#[test]
fn wrap_keeps_overshoot() {
    assert_eq!(wrap_coord(105, 100), 5);
    assert_eq!(wrap_coord(-5, 100), 95);
    assert_eq!(wrap_coord(100, 100), 100);
    assert_eq!(wrap_coord(0, 100), 0);
    assert_eq!(wrap_coord(250, 100), 50);
}

#[test]
fn advance_moves_along_heading() {
    assert_eq!(advance(v(10, 10), v(UNIT, 0), 100, 1000, Bounds { width: 1000, height: 1000 }), v(110, 10));
    assert_eq!(advance(v(10, 10), v(0, -UNIT), 20, 500, Bounds { width: 1000, height: 1000 }), v(10, 0));
    assert_eq!(advance(v(10, 10), v(UNIT, 0), 100, 0, Bounds { width: 1000, height: 1000 }), v(10, 10));
}

#[test]
fn agent_past_edge_reappears_opposite() {
    let mut p = params();
    p.speed = 10;
    let mut sim = Simulation::with_agents(vec![agent(95, 50, UNIT, 0)], world()).unwrap();
    sim.tick(1000, &p);
    assert_eq!(sim.agents()[0].position, v(5, 50));
    let mut back = Simulation::with_agents(vec![agent(3, 50, -UNIT, 0)], world()).unwrap();
    back.tick(1000, &p);
    assert_eq!(back.agents()[0].position, v(93, 50));
}

#[test]
fn clamped_parameters() {
    let mut p = params();
    p.speed = -3;
    p.cohesion_weight = MAX_WEIGHT + 7;
    p.separation_radius = 80;
    p.goal_position = Some(v(150, -20));
    let c = p.clamped(world());
    assert_eq!(c.speed, 0);
    assert_eq!(c.cohesion_weight, MAX_WEIGHT);
    assert_eq!(c.separation_radius, 80);
    assert_eq!(c.perception_radius, 50);
    assert_eq!(c.goal_position, Some(v(100, 0)));
    let mut fast = params();
    fast.speed = MAX_SPEED * 2;
    assert_eq!(fast.clamped(world()).speed, MAX_SPEED);
    assert_eq!(params().clamped(world()), params());
}

#[test]
fn summary_splits_close_and_flocking_neighbours() {
    let agents = vec![
        agent(50, 50, UNIT, 0),
        agent(53, 50, 0, UNIT),
        agent(70, 50, 0, UNIT),
        agent(50, 80, 0, -UNIT),
        agent(0, 0, UNIT, 0),
    ];
    let s = summarize(&agents, 0, &params());
    assert_eq!(s.close_neighbor_count, 1);
    assert_eq!(s.avoid_center, Some(v(53, 50)));
    assert_eq!(s.neighbor_count, 2);
    assert_eq!(s.flock_center, Some(v(60, 65)));
    assert_eq!(s.flock_heading, Some(v(0, 0)));
}

#[test]
fn summary_of_lone_agent_is_empty() {
    let agents = vec![agent(50, 50, UNIT, 0), agent(50, 50, UNIT, 0)];
    let s = summarize(&agents, 0, &params());
    assert_eq!(s.close_neighbor_count, 1);
    assert_eq!(s.avoid_center, Some(v(50, 50)));
    let alone = summarize(&vec![agent(50, 50, UNIT, 0)], 0, &params());
    assert_eq!(alone.flock_center, None);
    assert_eq!(alone.flock_heading, None);
    assert_eq!(alone.avoid_center, None);
    assert_eq!(alone.neighbor_count, 0);
}

#[test]
fn steer_toward_goal() {
    let mut p = params();
    p.goal_position = Some(v(50, 90));
    p.goal_weight = 1;
    let a = agent(50, 50, UNIT, 0);
    let s = summarize(&vec![a], 0, &p);
    // heading (1024, 0) * 1000 plus (0, 1024) * 1000 normalises to the diagonal
    assert_eq!(steer(a, s, &p, 1000), v(724, 724));
    assert_eq!(steer(a, s, &p, 0), v(UNIT, 0));
    p.flocking_enabled = false;
    assert_eq!(steer(a, s, &p, 1000), v(UNIT, 0));
}

#[test]
fn two_agents_facing_each_other() {
    let mut p = params();
    p.cohesion_weight = 1;
    p.alignment_weight = 1;
    let agents = vec![agent(0, 0, UNIT, 0), agent(10, 0, -UNIT, 0)];
    let mut sim = Simulation::with_agents(agents, world()).unwrap();
    sim.tick(1000, &p);
    let after = sim.agents();
    assert_eq!(after[0].heading, v(UNIT, 0));
    assert_eq!(after[1].heading, v(-UNIT, 0));
    // both head toward the midpoint (5, 0)
    assert!(dot(after[0].heading, 5, 0) > 0);
    assert!(dot(after[1].heading, -5, 0) > 0);
}

#[test]
fn headings_stay_unit_after_ticks() {
    let mut p = params();
    p.speed = 30;
    p.cohesion_weight = 15;
    p.alignment_weight = 15;
    p.separation_weight = 25;
    p.goal_position = Some(v(20, 80));
    p.goal_weight = 5;
    let mut sim = Simulation::new(world());
    sim.reseed(40, world());
    for _ in 0..20 {
        sim.tick(16, &p);
        for a in sim.agents() {
            assert!(is_unit_heading(a.heading));
            assert!(0 <= a.position.x && a.position.x <= 100);
            assert!(0 <= a.position.y && a.position.y <= 100);
        }
    }
}

#[test]
fn disabled_flocking_keeps_headings() {
    let mut p = params();
    p.flocking_enabled = false;
    p.speed = 5;
    p.cohesion_weight = 30;
    p.alignment_weight = 30;
    p.separation_weight = 30;
    let agents = vec![agent(10, 10, UNIT, 0), agent(12, 10, 0, UNIT), agent(30, 30, -614, 819)];
    let mut sim = Simulation::with_agents(agents.clone(), world()).unwrap();
    sim.tick(500, &p);
    let after = sim.agents();
    for i in 0..agents.len() {
        assert_eq!(after[i].heading, agents[i].heading);
    }
    assert_eq!(after[0].position, v(12, 10));
}

#[test]
fn isolated_agent_keeps_heading() {
    let mut p = params();
    p.speed = 7;
    p.cohesion_weight = 10;
    p.alignment_weight = 10;
    p.separation_weight = 10;
    let mut sim = Simulation::with_agents(vec![agent(40, 40, 614, -819)], world()).unwrap();
    for _ in 0..25 {
        sim.tick(100, &p);
        assert_eq!(sim.agents()[0].heading, v(614, -819));
    }
}

#[test]
fn close_agents_steer_apart() {
    let mut p = params();
    p.separation_weight = 5;
    let agents = vec![agent(50, 50, 0, UNIT), agent(53, 50, 0, UNIT)];
    let mut sim = Simulation::with_agents(agents, world()).unwrap();
    sim.tick(1000, &p);
    let after = sim.agents();
    assert!(dot(after[0].heading, 3, 0) < 0);
    assert!(dot(after[1].heading, -3, 0) < 0);
}

#[test]
fn reseed_replaces_population() {
    let mut sim = Simulation::with_agents(vec![agent(1, 1, UNIT, 0)], world()).unwrap();
    let b = Bounds { width: 300, height: 200 };
    sim.reseed(57, b);
    let agents = sim.agents();
    assert_eq!(agents.len(), 57);
    assert_eq!(sim.bounds(), b);
    for a in agents {
        assert!(0 <= a.position.x && a.position.x <= 300);
        assert!(0 <= a.position.y && a.position.y <= 200);
        assert!(is_unit_heading(a.heading));
    }
    sim.reseed(0, b);
    assert!(sim.agents().is_empty());
}

#[test]
fn empty_population_tick_is_noop() {
    let mut sim = Simulation::new(world());
    sim.tick(16, &params());
    assert!(sim.agents().is_empty());
}

#[test]
fn with_agents_rejects_invalid_input() {
    assert!(Simulation::with_agents(vec![agent(101, 0, UNIT, 0)], world()).is_none());
    assert!(Simulation::with_agents(vec![agent(-1, 0, UNIT, 0)], world()).is_none());
    assert!(Simulation::with_agents(vec![agent(1, 0, 3, 4)], world()).is_none());
    assert!(Simulation::with_agents(vec![], Bounds { width: 0, height: 10 }).is_none());
    assert!(Simulation::with_agents(vec![agent(1, 0, 0, -UNIT)], world()).is_some());
}

#[test]
fn default_factors() {
    let f = Factors::default();
    assert_eq!(f.speed, 100);
    assert_eq!(f.perception_radius, 100);
    assert_eq!(f.separation_radius, 30);
    assert_eq!(f.alignment_weight, 20);
    assert_eq!(f.cohesion_weight, 10);
    assert_eq!(f.separation_weight, 30);
    assert!(f.flocking_enabled);
    assert_eq!(f.goal_position, None);
    assert_eq!(f.goal_weight, 40);
}

#[test]
fn reseed_draws_varied_agents() {
    let mut sim = Simulation::new(world());
    sim.reseed(64, Bounds { width: 1000, height: 1000 });
    let agents = sim.agents();
    assert!(agents.iter().any(|a| a.position != agents[0].position));
    assert!(agents.iter().any(|a| a.heading != agents[0].heading));
    assert!(agents.iter().any(|a| a.position.x != 0 || a.position.y != 0));
}

#[test]
fn separation_radius_beyond_perception_is_kept() {
    let mut p = params();
    p.perception_radius = 5;
    p.separation_radius = 20;
    let agents = vec![agent(50, 50, UNIT, 0), agent(60, 50, 0, UNIT)];
    let s = summarize(&agents, 0, &p.clamped(world()));
    assert_eq!(s.close_neighbor_count, 1);
    assert_eq!(s.neighbor_count, 0);
    assert_eq!(s.flock_center, None);
}

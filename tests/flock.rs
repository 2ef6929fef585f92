use boids::flock::{aggregate, avoidance, close_enough, steer, Agent, Flock, TickError, MAX_AGENTS};
use boids::seed::{random_velocity, seed_positions, GRID_AGENTS, SEED_AGENTS};
use boids::vector::{ceil_sqrt_u128, clamp_magnitude, length_sq, IVec3, MAX_SPEED, SCALE};

fn v(x: i64, y: i64, z: i64) -> IVec3 {
    IVec3::new(x, y, z)
}

fn still(x: i64, y: i64, z: i64) -> Agent {
    Agent::new(v(x, y, z), IVec3::zero())
}

fn flock_of(agents: Vec<Agent>) -> Flock {
    Flock::new(agents).expect("valid flock")
}

#[test]
fn two_agents_pull_together() {
    let mut f = flock_of(vec![still(0, 0, 0), still(3000, 0, 0)]);
    assert_eq!(f.tick(), Ok(()));
    let a = f.agent(0);
    let b = f.agent(1);
    assert_eq!(a.velocity, v(3, 0, 0));
    assert_eq!(b.velocity, v(-3, 0, 0));
    assert_eq!(a.position, v(3, 0, 0));
    assert_eq!(b.position, v(2997, 0, 0));
    assert_eq!(a.heading, v(3, 0, 0));
    assert_eq!(b.heading, v(-3, 0, 0));
}

#[test]
fn cohesion_is_exact_displacement_to_other() {
    let agents = vec![still(0, 0, 0), still(0, 10000, 0)];
    let agg = aggregate(&agents);
    assert_eq!(agg.center_sum, v(0, 10000, 0));
    assert_eq!(agg.velocity_sum, IVec3::zero());
    assert_eq!(agg.num_other_boids, 1);
    assert_eq!(steer(&agents, &agg, 0), v(0, 10, 0));
    assert_eq!(steer(&agents, &agg, 1), v(0, -10, 0));
}

#[test]
fn avoidance_pushes_apart_when_close() {
    let agents = vec![still(0, 0, 0), still(1000, 0, 0)];
    assert_eq!(avoidance(&agents, 0), v(-1000, 0, 0));
    assert_eq!(avoidance(&agents, 1), v(1000, 0, 0));
    let agg = aggregate(&agents);
    assert_eq!(steer(&agents, &agg, 0), v(-99, 0, 0));
    assert_eq!(steer(&agents, &agg, 1), v(99, 0, 0));
}

#[test]
fn avoidance_counts_the_boundary_and_nothing_beyond() {
    let at_edge = vec![still(0, 0, 0), still(2000, 0, 0)];
    assert_eq!(avoidance(&at_edge, 0), v(-2000, 0, 0));
    let beyond = vec![still(0, 0, 0), still(2001, 0, 0)];
    assert_eq!(avoidance(&beyond, 0), IVec3::zero());
    assert_eq!(avoidance(&beyond, 1), IVec3::zero());
    assert!(close_enough(v(1200, 1600, 0)));
    assert!(!close_enough(v(1200, 1601, 0)));
}

#[test]
fn avoidance_compounds_over_neighbours() {
    let agents = vec![still(0, 0, 0), still(1000, 0, 0), still(0, 500, 0), still(9000, 0, 0)];
    assert_eq!(avoidance(&agents, 0), v(-1000, -500, 0));
}

#[test]
fn alignment_matches_others_velocity() {
    let agents = vec![
        Agent::new(v(0, 0, 0), v(0, 0, 0)),
        Agent::new(v(50000, 0, 0), v(0, 0, 1000)),
    ];
    let agg = aggregate(&agents);
    // 0.1 * (0.01 * 50000 + 0.01 * 1000) along x and z
    assert_eq!(steer(&agents, &agg, 0), v(50, 0, 1));
}

#[test]
fn same_snapshot_gives_same_tick() {
    let make = || {
        flock_of(vec![
            Agent::new(v(0, 0, 0), v(100, -200, 300)),
            Agent::new(v(1500, 0, 0), v(-700, 0, 0)),
            Agent::new(v(0, 4000, -1000), v(0, 999, 0)),
        ])
    };
    let mut a = make();
    let mut b = make();
    for _ in 0..10 {
        assert_eq!(a.tick(), Ok(()));
        assert_eq!(b.tick(), Ok(()));
    }
    assert_eq!(a.agents(), b.agents());
}

#[test]
fn lone_agent_keeps_its_velocity() {
    let mut f = flock_of(vec![Agent::new(v(0, 0, 0), v(300, 400, 0))]);
    assert_eq!(f.tick(), Ok(()));
    let a = f.agent(0);
    assert_eq!(a.velocity, v(300, 400, 0));
    assert_eq!(a.position, v(300, 400, 0));
}

#[test]
fn standing_agent_keeps_its_heading() {
    let mut f = flock_of(vec![still(0, 0, 0)]);
    assert_eq!(f.agent(0).heading, v(0, 0, -SCALE));
    assert_eq!(f.tick(), Ok(()));
    assert_eq!(f.agent(0).heading, v(0, 0, -SCALE));
    assert_eq!(f.agent(0).position, IVec3::zero());
}

#[test]
fn empty_flock_ticks() {
    let mut f = flock_of(vec![]);
    assert_eq!(f.tick(), Ok(()));
    assert_eq!(f.len(), 0);
    assert_eq!(aggregate(&[]).num_other_boids, -1);
}

#[test]
fn speed_stays_bounded_over_many_ticks() {
    let mut f = Flock::random();
    for _ in 0..30 {
        assert_eq!(f.tick(), Ok(()));
        for a in f.agents() {
            assert!(length_sq(a.velocity) <= (MAX_SPEED * MAX_SPEED) as u128);
        }
    }
}

#[test]
fn crowded_agents_are_clamped() {
    let agents = vec![still(0, 0, 0), still(1, 0, 0), still(0, 1, 0), still(-1, 0, 0)];
    let mut f = flock_of(agents);
    assert_eq!(f.tick(), Ok(()));
    for a in f.agents() {
        assert!(length_sq(a.velocity) <= 1_000_000);
    }
}

#[test]
fn clamp_scales_to_max_speed() {
    assert_eq!(clamp_magnitude(v(3000, 4000, 0)), v(600, 800, 0));
    assert_eq!(clamp_magnitude(v(-3000, 0, -4000)), v(-600, 0, -800));
    assert_eq!(clamp_magnitude(v(600, 800, 0)), v(600, 800, 0));
    assert_eq!(clamp_magnitude(v(1001, 0, 0)), v(1000, 0, 0));
    let huge = clamp_magnitude(v(i64::MIN, i64::MAX, i64::MIN));
    assert!(length_sq(huge) <= 1_000_000);
}

#[test]
fn ceil_sqrt_values() {
    assert_eq!(ceil_sqrt_u128(0), 0);
    assert_eq!(ceil_sqrt_u128(1), 1);
    assert_eq!(ceil_sqrt_u128(2), 2);
    assert_eq!(ceil_sqrt_u128(16), 4);
    assert_eq!(ceil_sqrt_u128(17), 5);
    assert_eq!(ceil_sqrt_u128(25_000_000), 5000);
    assert_eq!(ceil_sqrt_u128(u128::MAX), 1u128 << 64);
}

#[test]
fn squared_length_is_exact() {
    assert_eq!(length_sq(v(1, -2, 3)), 14);
    assert_eq!(length_sq(v(i64::MIN, 0, 0)), 1u128 << 126);
}

#[test]
fn new_rejects_invalid_agents() {
    assert!(Flock::new(vec![Agent::new(v(0, 0, 0), v(1000, 1, 0))]).is_none());
    assert!(Flock::new(vec![still(1_000_000_000_001, 0, 0)]).is_none());
    assert!(Flock::new(vec![still(1_000_000_000_000, 0, 0)]).is_some());
    assert!(Flock::new(vec![still(0, 0, 0); MAX_AGENTS + 1]).is_none());
}

#[test]
fn tick_refuses_at_the_edge_of_the_world() {
    let mut f = flock_of(vec![still(0, 0, 0), still(999_999_999_500, 0, 0)]);
    assert_eq!(f.tick(), Err(TickError::OutOfBounds));
    assert_eq!(f.agent(1).position, v(999_999_999_500, 0, 0));
    assert!(!f.has_room());
}

#[test]
fn seed_layout() {
    let p = seed_positions();
    assert_eq!(p.len(), SEED_AGENTS);
    assert_eq!(SEED_AGENTS, 514);
    assert_eq!(p[0], v(-10000, -10000, -10000));
    assert_eq!(p[1], v(-10000, -10000, -6000));
    assert_eq!(p[8], v(-10000, -6000, -10000));
    assert_eq!(p[64], v(-6000, -10000, -10000));
    assert_eq!(p[GRID_AGENTS - 1], v(18000, 18000, 18000));
    assert_eq!(p[GRID_AGENTS], v(1000, 1000, 0));
    assert_eq!(p[GRID_AGENTS + 1], v(-1000, -1000, 0));
}

#[test]
fn seeded_clamps_velocities() {
    assert!(Flock::seeded(&[IVec3::zero(); 3]).is_none());
    let mut vs = vec![IVec3::zero(); SEED_AGENTS];
    vs[0] = v(1000, 1000, 0);
    let f = Flock::seeded(&vs).expect("one velocity per agent");
    assert_eq!(f.len(), SEED_AGENTS);
    assert_eq!(f.agent(0).velocity, v(706, 706, 0));
    assert_eq!(f.agent(0).heading, v(706, 706, 0));
    assert_eq!(f.agent(1).heading, v(0, 0, -SCALE));
}

#[test]
fn random_velocities_vary_within_range() {
    let draws: Vec<IVec3> = (0..200).map(|_| random_velocity()).collect();
    for d in &draws {
        for c in [d.x, d.y, d.z] {
            assert!((-SCALE..SCALE).contains(&c));
        }
    }
    assert!(draws.iter().any(|d| *d != draws[0]));
    assert!(draws.iter().any(|d| d.x < 0) && draws.iter().any(|d| d.x > 0));
}

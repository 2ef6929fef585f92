//! The starting flock: agents on a regular grid plus two placed by hand, each
//! with a velocity drawn at random and limited to `MAX_SPEED`.

use rand::Rng;
use vstd::prelude::*;

use crate::flock::{agent_ok, flock_ok, initial_heading, within_box, Agent, Flock, POSITION_LIMIT};
use crate::vector::{clamp_magnitude, clamp_speed, IVec3, SCALE};

verus! {

/// First grid coordinate, in units.
pub const GRID_START: i64 = -10;

/// Distance between neighbouring grid points, in units.
pub const GRID_STEP: i64 = 4;

/// Grid points along each axis.
pub const GRID_SIDE: usize = 8;

/// Agents on the grid.
pub const GRID_AGENTS: usize = GRID_SIDE * GRID_SIDE * GRID_SIDE;

/// Agents in the starting flock: the grid and two more.
pub const SEED_AGENTS: usize = GRID_AGENTS + 2;

/// The `j`-th grid coordinate along an axis, in milli-units.
pub open spec fn grid_coord(j: int) -> int {
    (GRID_START + GRID_STEP * j) * SCALE
}

/// Where the `k`-th agent of the starting flock stands: grid points ordered by
/// x, then y, then z, followed by (1, 1, 0) and (-1, -1, 0).
pub open spec fn seed_position(k: int) -> (int, int, int) {
    if k < GRID_AGENTS {
        (
            grid_coord(k / (GRID_SIDE * GRID_SIDE) as int),
            grid_coord((k / GRID_SIDE as int) % GRID_SIDE as int),
            grid_coord(k % GRID_SIDE as int),
        )
    } else if k == GRID_AGENTS {
        (SCALE as int, SCALE as int, 0)
    } else {
        (-SCALE as int, -SCALE as int, 0)
    }
}

fn grid_coordinate(j: usize) -> (r: i64)
    requires
        j < GRID_SIDE,
    ensures
        r == grid_coord(j as int),
{
    (GRID_START + GRID_STEP * (j as i64)) * SCALE
}

/// The positions of the starting flock (see `seed_position`).
pub fn seed_positions() -> (r: Vec<IVec3>)
    ensures
        r@.len() == SEED_AGENTS,
        forall|k: int| 0 <= k < SEED_AGENTS ==> (#[trigger] r@[k])@ == seed_position(k),
{
    let mut r: Vec<IVec3> = Vec::new();
    let mut k: usize = 0;
    while k < GRID_AGENTS
        invariant
            k <= GRID_AGENTS,
            r@.len() == k,
            forall|j: int| 0 <= j < k ==> (#[trigger] r@[j])@ == seed_position(j),
        decreases GRID_AGENTS - k,
    {
        let x = grid_coordinate(k / (GRID_SIDE * GRID_SIDE));
        let y = grid_coordinate((k / GRID_SIDE) % GRID_SIDE);
        let z = grid_coordinate(k % GRID_SIDE);
        r.push(IVec3::new(x, y, z));
        k = k + 1;
    }
    r.push(IVec3::new(SCALE, SCALE, 0));
    r.push(IVec3::new(-SCALE, -SCALE, 0));
    r
}

/// Relies on rand's `thread_rng` and `Rng::gen_range`, which returns a value of
/// the half-open range `low..high` (it panics only on an empty range).
#[verifier::external_body]
fn random_in(low: i64, high: i64) -> (r: i64)
    requires
        low < high,
    ensures
        low <= r < high,
{
    rand::thread_rng().gen_range(low..high)
}

/// A velocity whose components are drawn at random from `-SCALE..SCALE`.
pub fn random_velocity() -> (r: IVec3)
    ensures
        within_box(r@, SCALE as int),
{
    IVec3::new(random_in(-SCALE, SCALE), random_in(-SCALE, SCALE), random_in(-SCALE, SCALE))
}

impl Flock {
    /// The starting flock with the given velocities before limiting: agent `k`
    /// stands at `seed_position(k)` and moves with `velocities[k]` limited to
    /// `MAX_SPEED`. `None` unless there is one velocity per agent.
    pub fn seeded(velocities: &[IVec3]) -> (r: Option<Flock>)
        ensures
            r is Some <==> velocities@.len() == SEED_AGENTS,
            r matches Some(f) ==> f.wf() && f@.len() == SEED_AGENTS && forall|k: int|
                0 <= k < SEED_AGENTS ==> (#[trigger] f@[k]).position@ == seed_position(k)
                    && f@[k].velocity@ == clamp_speed(velocities@[k]@)
                    && f@[k].heading@ == initial_heading(f@[k].velocity@),
    {
        if velocities.len() != SEED_AGENTS {
            return None;
        }
        let positions = seed_positions();
        let mut agents: Vec<Agent> = Vec::new();
        let mut k: usize = 0;
        while k < SEED_AGENTS
            invariant
                velocities@.len() == SEED_AGENTS,
                positions@.len() == SEED_AGENTS,
                forall|j: int| 0 <= j < SEED_AGENTS ==> (#[trigger] positions@[j])@ == seed_position(j),
                k <= SEED_AGENTS,
                agents@.len() == k,
                forall|j: int| 0 <= j < k ==> agent_ok(#[trigger] agents@[j])
                    && agents@[j].position@ == seed_position(j)
                    && agents@[j].velocity@ == clamp_speed(velocities@[j]@)
                    && agents@[j].heading@ == initial_heading(agents@[j].velocity@),
            decreases SEED_AGENTS - k,
        {
            let v = clamp_magnitude(velocities[k]);
            let a = Agent::new(positions[k], v);
            proof {
                assert(within_box(seed_position(k as int), POSITION_LIMIT as int));
            }
            agents.push(a);
            k = k + 1;
        }
        let r = Flock::new(agents);
        assert(flock_ok(agents@));
        r
    }

    /// The starting flock with velocities drawn at random.
    pub fn random() -> (r: Flock)
        ensures
            r.wf(),
            r@.len() == SEED_AGENTS,
            forall|k: int| 0 <= k < SEED_AGENTS ==> (#[trigger] r@[k]).position@ == seed_position(k),
    {
        let mut velocities: Vec<IVec3> = Vec::new();
        let mut k: usize = 0;
        while k < SEED_AGENTS
            invariant
                k <= SEED_AGENTS,
                velocities@.len() == k,
            decreases SEED_AGENTS - k,
        {
            velocities.push(random_velocity());
            k = k + 1;
        }
        Flock::seeded(velocities.as_slice()).unwrap()
    }
}

} // verus!

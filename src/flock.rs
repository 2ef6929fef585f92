//! The flock: its agents, the per-tick update rule, and the laws it obeys.

use vstd::arithmetic::div_mod::{lemma_div_is_ordered, lemma_div_is_ordered_by_denominator};
use vstd::prelude::*;

use crate::vector::{
    clamp_magnitude, clamp_speed, length_sq, lemma_clamp_speed_bounded, norm_sq, trunc_div, vadd, vsub,
    IVec3, MAX_SPEED, SCALE,
};

verus! {

/// Radius, in milli-units, inside which an agent is pushed away from another.
pub const PERSONAL_SPACE: i64 = 2000;

/// Weight of the pull toward the others' centre, per mille.
pub const COHERENCE: i64 = 10;

/// Weight of the pull toward the others' mean velocity, per mille.
pub const VELOCITY_FACTOR: i64 = 10;

/// Share of the summed steering that is applied in one tick, per mille.
pub const DAMPING: i64 = 100;

/// The denominator of the per-mille weights.
pub const MILLE: i64 = 1000;

/// Largest coordinate, in absolute value, that a position may hold.
pub const POSITION_LIMIT: i64 = 1_000_000_000_000;

/// Largest number of agents in a flock.
pub const MAX_AGENTS: usize = 1_000_000;

/// One member of the flock.
#[derive(Clone, Copy, Debug, PartialEq, Eq, Structural)]
pub struct Agent {
    pub position: IVec3,
    pub velocity: IVec3,
    /// The direction the agent faces: its last non-zero velocity.
    pub heading: IVec3,
}

/// The direction an agent faces before it has ever moved.
pub open spec fn initial_heading(velocity: (int, int, int)) -> (int, int, int) {
    if velocity == (0int, 0int, 0int) {
        (0, 0, -SCALE)
    } else {
        velocity
    }
}

impl Agent {
    pub open spec fn view(&self) -> ((int, int, int), (int, int, int), (int, int, int)) {
        (self.position@, self.velocity@, self.heading@)
    }

    /// An agent at `position` moving with `velocity`, facing its velocity, or
    /// facing along negative z when it stands still.
    pub fn new(position: IVec3, velocity: IVec3) -> (r: Agent)
        ensures
            r.position == position,
            r.velocity == velocity,
            r.heading@ == initial_heading(velocity@),
    {
        let heading = if velocity.is_zero() { IVec3::new(0, 0, -SCALE) } else { velocity };
        Agent { position, velocity, heading }
    }
}

pub open spec fn coord_ok(c: int, limit: int) -> bool {
    -limit <= c <= limit
}

/// Every coordinate of `t` lies within `limit` of zero.
pub open spec fn within_box(t: (int, int, int), limit: int) -> bool {
    coord_ok(t.0, limit) && coord_ok(t.1, limit) && coord_ok(t.2, limit)
}

/// An agent inside the world and no faster than `MAX_SPEED`.
pub open spec fn agent_ok(a: Agent) -> bool {
    within_box(a.position@, POSITION_LIMIT as int) && norm_sq(a.velocity@) <= MAX_SPEED * MAX_SPEED
}

/// A snapshot that the update rule accepts.
pub open spec fn flock_ok(s: Seq<Agent>) -> bool {
    s.len() <= MAX_AGENTS && forall|k: int| 0 <= k < s.len() ==> agent_ok(#[trigger] s[k])
}

/// Every agent can move by up to `MAX_SPEED` and stay inside the world.
pub open spec fn can_advance(s: Seq<Agent>) -> bool {
    forall|k: int| 0 <= k < s.len() ==> within_box(#[trigger] s[k].position@, POSITION_LIMIT - MAX_SPEED)
}

pub open spec fn vscale(k: int, t: (int, int, int)) -> (int, int, int) {
    (k * t.0, k * t.1, k * t.2)
}

/// Sum of all positions.
pub open spec fn position_sum(s: Seq<Agent>) -> (int, int, int)
    decreases s.len(),
{
    if s.len() == 0 {
        (0, 0, 0)
    } else {
        vadd(position_sum(s.drop_last()), s.last().position@)
    }
}

/// Sum of all velocities.
pub open spec fn velocity_sum(s: Seq<Agent>) -> (int, int, int)
    decreases s.len(),
{
    if s.len() == 0 {
        (0, 0, 0)
    } else {
        vadd(velocity_sum(s.drop_last()), s.last().velocity@)
    }
}

/// How many agents each agent sees besides itself.
pub open spec fn num_others(s: Seq<Agent>) -> int {
    s.len() - 1
}

/// `num_others` times the displacement from agent `i` to the centre of the others:
/// `(position_sum - p_i) - num_others * p_i`.
pub open spec fn cohesion_pull(s: Seq<Agent>, i: int) -> (int, int, int) {
    vsub(position_sum(s), vscale(s.len() as int, s[i].position@))
}

/// `num_others` times the difference between the others' mean velocity and agent `i`'s.
pub open spec fn alignment_pull(s: Seq<Agent>, i: int) -> (int, int, int) {
    vsub(velocity_sum(s), vscale(s.len() as int, s[i].velocity@))
}

/// A displacement no longer than `PERSONAL_SPACE`.
pub open spec fn is_close(d: (int, int, int)) -> bool {
    norm_sq(d) <= PERSONAL_SPACE * PERSONAL_SPACE
}

/// The push on agent `i` from agents `0..k`: the sum of `p_i - p_j` over every
/// other agent `j` within `PERSONAL_SPACE`, unweighted.
pub open spec fn avoidance_upto(s: Seq<Agent>, i: int, k: int) -> (int, int, int)
    decreases k,
{
    if k <= 0 {
        (0, 0, 0)
    } else {
        let prev = avoidance_upto(s, i, k - 1);
        let away = vsub(s[i].position@, s[k - 1].position@);
        if k - 1 != i && is_close(away) {
            vadd(prev, away)
        } else {
            prev
        }
    }
}

/// The push on agent `i` from every other agent.
pub open spec fn avoidance_of(s: Seq<Agent>, i: int) -> (int, int, int) {
    avoidance_upto(s, i, s.len() as int)
}

/// One component of the velocity change:
/// `DAMPING * (COHERENCE * coh / n + MILLE * avoid + VELOCITY_FACTOR * align / n) / MILLE^2`
/// with one rounding toward zero, where `coh` and `align` are `n` times the
/// cohesion and alignment displacements.
pub open spec fn steering_axis(coh: int, avoid: int, align: int, n: int) -> int {
    trunc_div(
        DAMPING * (COHERENCE * coh + MILLE * n * avoid + VELOCITY_FACTOR * align),
        MILLE * MILLE * n,
    )
}

/// The change of agent `i`'s velocity in one tick; none for a lone agent.
pub open spec fn velocity_delta_of(s: Seq<Agent>, i: int) -> (int, int, int) {
    let n = num_others(s);
    if n <= 0 {
        (0, 0, 0)
    } else {
        let c = cohesion_pull(s, i);
        let a = avoidance_of(s, i);
        let v = alignment_pull(s, i);
        (steering_axis(c.0, a.0, v.0, n), steering_axis(c.1, a.1, v.1, n), steering_axis(c.2, a.2, v.2, n))
    }
}

/// Agent `i`'s velocity after one tick.
pub open spec fn next_velocity(s: Seq<Agent>, i: int) -> (int, int, int) {
    clamp_speed(vadd(s[i].velocity@, velocity_delta_of(s, i)))
}

/// Agent `i` after one tick: moved by its new velocity, facing it unless it is zero.
pub open spec fn stepped(s: Seq<Agent>, i: int) -> ((int, int, int), (int, int, int), (int, int, int)) {
    let v = next_velocity(s, i);
    let h = if v == (0int, 0int, 0int) { s[i].heading@ } else { v };
    (vadd(s[i].position@, v), v, h)
}

/// `t` is the flock `s` after one tick.
pub open spec fn is_tick(s: Seq<Agent>, t: Seq<Agent>) -> bool {
    t.len() == s.len() && forall|i: int| 0 <= i < s.len() ==> (#[trigger] t[i])@ == stepped(s, i)
}

/// The aggregate statistics of one snapshot.
#[derive(Clone, Copy, Debug, PartialEq, Eq, Structural)]
pub struct Aggregates {
    pub center_sum: IVec3,
    pub velocity_sum: IVec3,
    /// The number of agents less one.
    pub num_other_boids: i64,
}

impl Aggregates {
    pub open spec fn of(&self, s: Seq<Agent>) -> bool {
        self.center_sum@ == position_sum(s) && self.velocity_sum@ == velocity_sum(s)
            && self.num_other_boids == num_others(s)
    }
}

proof fn lemma_component_bound(t: (int, int, int), k: int)
    requires
        k >= 0,
        norm_sq(t) <= k * k,
    ensures
        within_box(t, k),
{
    assert(within_box(t, k)) by (nonlinear_arith)
        requires
            k >= 0,
            t.0 * t.0 + t.1 * t.1 + t.2 * t.2 <= k * k,
    ;
}

proof fn lemma_sum_step(s: Seq<Agent>, k: int)
    requires
        0 <= k < s.len(),
    ensures
        position_sum(s.subrange(0, k + 1)) == vadd(position_sum(s.subrange(0, k)), s[k].position@),
        velocity_sum(s.subrange(0, k + 1)) == vadd(velocity_sum(s.subrange(0, k)), s[k].velocity@),
{
    assert(s.subrange(0, k + 1).drop_last() =~= s.subrange(0, k));
}

/// The sums of positions and velocities and the count of others, in one pass.
pub fn aggregate(agents: &[Agent]) -> (r: Aggregates)
    requires
        flock_ok(agents@),
    ensures
        r.of(agents@),
{
    let n = agents.len();
    let mut c = IVec3::zero();
    let mut v = IVec3::zero();
    let mut k: usize = 0;
    while k < n
        invariant
            n == agents@.len(),
            flock_ok(agents@),
            k <= n,
            c@ == position_sum(agents@.subrange(0, k as int)),
            v@ == velocity_sum(agents@.subrange(0, k as int)),
            within_box(c@, k * POSITION_LIMIT),
            within_box(v@, k * MAX_SPEED),
        decreases n - k,
    {
        let a = agents[k];
        proof {
            assert(agent_ok(agents@[k as int]));
            lemma_component_bound(a.velocity@, MAX_SPEED as int);
            lemma_sum_step(agents@, k as int);
        }
        c = IVec3 { x: c.x + a.position.x, y: c.y + a.position.y, z: c.z + a.position.z };
        v = IVec3 { x: v.x + a.velocity.x, y: v.y + a.velocity.y, z: v.z + a.velocity.z };
        k = k + 1;
    }
    assert(agents@.subrange(0, n as int) =~= agents@);
    Aggregates { center_sum: c, velocity_sum: v, num_other_boids: n as i64 - 1 }
}

/// Whether the displacement `d` is no longer than `PERSONAL_SPACE`.
pub fn close_enough(d: IVec3) -> (r: bool)
    ensures
        r == is_close(d@),
{
    let k = PERSONAL_SPACE;
    if d.x < -k || d.x > k || d.y < -k || d.y > k || d.z < -k || d.z > k {
        proof {
            if is_close(d@) {
                lemma_component_bound(d@, k as int);
            }
        }
        false
    } else {
        assert(0 <= d.x * d.x <= k * k && 0 <= d.y * d.y <= k * k && 0 <= d.z * d.z <= k * k)
            by (nonlinear_arith)
            requires
                -k <= d.x <= k,
                -k <= d.y <= k,
                -k <= d.z <= k,
                k == 2000,
        ;
        d.x * d.x + d.y * d.y + d.z * d.z <= k * k
    }
}

/// The push on agent `i` away from every other agent within `PERSONAL_SPACE`.
pub fn avoidance(agents: &[Agent], i: usize) -> (r: IVec3)
    requires
        flock_ok(agents@),
        i < agents@.len(),
    ensures
        r@ == avoidance_of(agents@, i as int),
        within_box(r@, MAX_AGENTS * PERSONAL_SPACE),
{
    let n = agents.len();
    let me = agents[i].position;
    let mut acc = IVec3::zero();
    let mut j: usize = 0;
    proof {
        assert(agent_ok(agents@[i as int]));
    }
    while j < n
        invariant
            n == agents@.len(),
            flock_ok(agents@),
            i < n,
            me == agents@[i as int].position,
            within_box(me@, POSITION_LIMIT as int),
            j <= n,
            acc@ == avoidance_upto(agents@, i as int, j as int),
            within_box(acc@, j * PERSONAL_SPACE),
        decreases n - j,
    {
        let other = agents[j].position;
        proof {
            assert(agent_ok(agents@[j as int]));
        }
        let d = IVec3 { x: me.x - other.x, y: me.y - other.y, z: me.z - other.z };
        if j != i && close_enough(d) {
            proof {
                lemma_component_bound(d@, PERSONAL_SPACE as int);
            }
            acc = IVec3 { x: acc.x + d.x, y: acc.y + d.y, z: acc.z + d.z };
        }
        j = j + 1;
    }
    acc
}

proof fn lemma_product_bound(a: int, b: int, ka: int, kb: int)
    requires
        0 <= a <= ka,
        -kb <= b <= kb,
    ensures
        -(ka * kb) <= a * b <= ka * kb,
{
    assert(-(ka * kb) <= a * b <= ka * kb) by (nonlinear_arith)
        requires
            0 <= a <= ka,
            -kb <= b <= kb,
    ;
}

/// One component of the velocity change (see `steering_axis`).
fn steer_axis(coh: i128, avoid: i64, align: i128, n: i64) -> (r: i64)
    requires
        1 <= n <= MAX_AGENTS,
        -0x1_0000_0000_0000_0000i128 <= coh <= 0x1_0000_0000_0000_0000i128,
        -0x1_0000_0000_0000_0000i128 <= align <= 0x1_0000_0000_0000_0000i128,
        -2_000_000_000 <= avoid <= 2_000_000_000,
    ensures
        r == steering_axis(coh as int, avoid as int, align as int, n as int),
        -40_000_000_000_000_000 <= r <= 40_000_000_000_000_000,
{
    let wide_n = n as i128;
    proof {
        lemma_product_bound(n as int, avoid as int, 1_000_000, 2_000_000_000);
    }
    let pushed = wide_n * (avoid as i128);
    let inner = (COHERENCE as i128) * coh + (MILLE as i128) * pushed + (VELOCITY_FACTOR as i128) * align;
    let num = (DAMPING as i128) * inner;
    assert(1_000_000 <= MILLE * MILLE * n <= 1_000_000_000_000) by (nonlinear_arith)
        requires
            1 <= n <= 1_000_000,
            MILLE == 1000,
    ;
    let den = (MILLE as i128) * (MILLE as i128) * wide_n;
    assert(num == DAMPING * (COHERENCE * coh + MILLE * n * avoid + VELOCITY_FACTOR * align)) by (nonlinear_arith)
        requires
            pushed == n * avoid,
            inner == COHERENCE * coh + MILLE * pushed + VELOCITY_FACTOR * align,
            num == DAMPING * inner,
    ;
    let mag: i128 = if num >= 0 { num } else { -num };
    proof {
        lemma_div_is_ordered_by_denominator(mag as int, 1_000_000, den as int);
        lemma_div_is_ordered(mag as int, 40_000_000_000_000_000_000_000, 1_000_000);
    }
    let q = mag / den;
    if num >= 0 {
        q as i64
    } else {
        -(q as i64)
    }
}

/// Agent `i`'s velocity after one tick, read from the snapshot `agents` and
/// its aggregates `agg`: cohesion, avoidance and alignment, damped, then
/// limited to `MAX_SPEED`.
pub fn steer(agents: &[Agent], agg: &Aggregates, i: usize) -> (r: IVec3)
    requires
        flock_ok(agents@),
        agg.of(agents@),
        i < agents@.len(),
    ensures
        r@ == next_velocity(agents@, i as int),
        norm_sq(r@) <= MAX_SPEED * MAX_SPEED,
{
    let a = agents[i];
    let n = agg.num_other_boids;
    if n <= 0 {
        proof {
            assert(vadd(a.velocity@, velocity_delta_of(agents@, i as int)) == a.velocity@);
        }
        return clamp_magnitude(a.velocity);
    }
    proof {
        assert(agent_ok(agents@[i as int]));
        lemma_component_bound(a.velocity@, MAX_SPEED as int);
        let len = agents@.len() as int;
        lemma_product_bound(len, a.position.x as int, 1_000_000, POSITION_LIMIT as int);
        lemma_product_bound(len, a.position.y as int, 1_000_000, POSITION_LIMIT as int);
        lemma_product_bound(len, a.position.z as int, 1_000_000, POSITION_LIMIT as int);
        lemma_product_bound(len, a.velocity.x as int, 1_000_000, MAX_SPEED as int);
        lemma_product_bound(len, a.velocity.y as int, 1_000_000, MAX_SPEED as int);
        lemma_product_bound(len, a.velocity.z as int, 1_000_000, MAX_SPEED as int);
    }
    let push = avoidance(agents, i);
    let len = agents.len() as i128;
    let c = agg.center_sum;
    let v = agg.velocity_sum;
    let p = a.position;
    let w = a.velocity;
    let dx = steer_axis(c.x as i128 - len * (p.x as i128), push.x, v.x as i128 - len * (w.x as i128), n);
    let dy = steer_axis(c.y as i128 - len * (p.y as i128), push.y, v.y as i128 - len * (w.y as i128), n);
    let dz = steer_axis(c.z as i128 - len * (p.z as i128), push.z, v.z as i128 - len * (w.z as i128), n);
    clamp_magnitude(IVec3 { x: w.x + dx, y: w.y + dy, z: w.z + dz })
}

/// Whether `a` is inside the world and no faster than `MAX_SPEED`.
pub fn agent_in_bounds(a: &Agent) -> (r: bool)
    ensures
        r == agent_ok(*a),
{
    let l = POSITION_LIMIT;
    let p = a.position;
    assert(MAX_SPEED * MAX_SPEED == 1_000_000) by (nonlinear_arith)
        requires
            MAX_SPEED == 1000,
    ;
    -l <= p.x && p.x <= l && -l <= p.y && p.y <= l && -l <= p.z && p.z <= l
        && length_sq(a.velocity) <= (MAX_SPEED as u128) * (MAX_SPEED as u128)
}

/// Why a tick was refused.
#[derive(Clone, Copy, Debug, PartialEq, Eq, Structural)]
pub enum TickError {
    /// Some agent lies within `MAX_SPEED` of the edge of the world.
    OutOfBounds,
}

/// A flock: an ordered sequence of agents, each identified by its index.
pub struct Flock {
    agents: Vec<Agent>,
}

impl Flock {
    pub closed spec fn view(&self) -> Seq<Agent> {
        self.agents@
    }

    pub open spec fn wf(&self) -> bool {
        flock_ok(self@)
    }

    /// A flock of `agents`, or `None` when there are more than `MAX_AGENTS`,
    /// or one lies outside the world or is faster than `MAX_SPEED`.
    pub fn new(agents: Vec<Agent>) -> (r: Option<Flock>)
        ensures
            r is Some <==> flock_ok(agents@),
            r matches Some(f) ==> f@ == agents@ && f.wf(),
    {
        if agents.len() > MAX_AGENTS {
            return None;
        }
        let mut k: usize = 0;
        while k < agents.len()
            invariant
                k <= agents@.len() <= MAX_AGENTS,
                forall|j: int| 0 <= j < k ==> agent_ok(#[trigger] agents@[j]),
            decreases agents@.len() - k,
        {
            if !agent_in_bounds(&agents[k]) {
                return None;
            }
            k = k + 1;
        }
        Some(Flock { agents })
    }

    pub fn len(&self) -> (r: usize)
        ensures
            r == self@.len(),
    {
        self.agents.len()
    }

    /// The agent at index `i`; an index outside the flock is a caller's error.
    pub fn agent(&self, i: usize) -> (r: Agent)
        requires
            i < self@.len(),
        ensures
            r == self@[i as int],
    {
        self.agents[i]
    }

    /// All agents, in index order.
    pub fn agents(&self) -> (r: &[Agent])
        ensures
            r@ == self@,
    {
        self.agents.as_slice()
    }

    /// Whether every agent can move by `MAX_SPEED` and stay inside the world.
    pub fn has_room(&self) -> (r: bool)
        ensures
            r == can_advance(self@),
    {
        let l = POSITION_LIMIT - MAX_SPEED;
        assert(l == 999_999_999_000);
        let mut k: usize = 0;
        while k < self.agents.len()
            invariant
                k <= self@.len(),
                l == 999_999_999_000,
                forall|j: int| 0 <= j < k ==> within_box(#[trigger] self@[j].position@, l as int),
            decreases self@.len() - k,
        {
            let p = self.agents[k].position;
            if p.x < -l || p.x > l || p.y < -l || p.y > l || p.z < -l || p.z > l {
                assert(!within_box(self@[k as int].position@, POSITION_LIMIT - MAX_SPEED));
                return false;
            }
            k = k + 1;
        }
        true
    }

    /// Advances the flock by one tick. Every new velocity is computed from the
    /// snapshot taken before the tick; then each agent moves by its new
    /// velocity and turns to face it. Refused, with the flock unchanged, when
    /// some agent could leave the world.
    pub fn tick(&mut self) -> (r: Result<(), TickError>)
        requires
            old(self).wf(),
        ensures
            final(self).wf(),
            r is Err <==> !can_advance(old(self)@),
            r is Err ==> final(self)@ == old(self)@,
            r is Ok ==> is_tick(old(self)@, final(self)@),
    {
        if !self.has_room() {
            return Err(TickError::OutOfBounds);
        }
        let ghost s = self@;
        let n = self.agents.len();
        let agg = aggregate(self.agents.as_slice());
        let mut next: Vec<IVec3> = Vec::new();
        let mut i: usize = 0;
        while i < n
            invariant
                self@ == s,
                flock_ok(s),
                n == s.len(),
                agg.of(s),
                i <= n,
                next@.len() == i,
                forall|j: int| 0 <= j < i ==> (#[trigger] next@[j])@ == next_velocity(s, j),
            decreases n - i,
        {
            next.push(steer(self.agents.as_slice(), &agg, i));
            i = i + 1;
        }
        let mut i: usize = 0;
        while i < n
            invariant
                flock_ok(s),
                can_advance(s),
                n == s.len(),
                self@.len() == n,
                next@.len() == n,
                i <= n,
                forall|j: int| 0 <= j < n ==> (#[trigger] next@[j])@ == next_velocity(s, j),
                forall|j: int| 0 <= j < i ==> (#[trigger] self@[j])@ == stepped(s, j),
                forall|j: int| i <= j < n ==> #[trigger] self@[j] == s[j],
            decreases n - i,
        {
            let a = self.agents[i];
            let v = next[i];
            proof {
                assert(within_box(s[i as int].position@, POSITION_LIMIT - MAX_SPEED));
                lemma_clamp_speed_bounded(vadd(s[i as int].velocity@, velocity_delta_of(s, i as int)));
                lemma_component_bound(v@, MAX_SPEED as int);
            }
            let heading = if v.is_zero() { a.heading } else { v };
            let moved = Agent {
                position: IVec3 { x: a.position.x + v.x, y: a.position.y + v.y, z: a.position.z + v.z },
                velocity: v,
                heading,
            };
            self.agents.set(i, moved);
            i = i + 1;
        }
        proof {
            assert forall|j: int| 0 <= j < n implies agent_ok(#[trigger] self@[j]) by {
                assert(within_box(s[j].position@, POSITION_LIMIT - MAX_SPEED));
                lemma_clamp_speed_bounded(vadd(s[j].velocity@, velocity_delta_of(s, j)));
                lemma_component_bound(next_velocity(s, j), MAX_SPEED as int);
            }
        }
        Ok(())
    }
}

} // verus!

//! Properties of the update rule that hold for every snapshot.

use vstd::prelude::*;

use crate::flock::{
    agent_ok, alignment_pull, avoidance_of, avoidance_upto, cohesion_pull, flock_ok, is_close,
    is_tick, next_velocity, num_others, position_sum, stepped, velocity_delta_of, velocity_sum,
    vscale, Agent,
};
use crate::vector::{lemma_clamp_speed_bounded, norm_sq, vadd, vsub, MAX_SPEED};

verus! {

/// After a tick no agent is faster than `MAX_SPEED`, whatever the snapshot was.
pub proof fn lemma_tick_speed_bounded(s: Seq<Agent>, t: Seq<Agent>)
    requires
        is_tick(s, t),
    ensures
        forall|i: int| 0 <= i < t.len() ==> norm_sq((#[trigger] t[i]).velocity@) <= MAX_SPEED * MAX_SPEED,
{
    assert forall|i: int| 0 <= i < t.len() implies norm_sq((#[trigger] t[i]).velocity@) <= MAX_SPEED
        * MAX_SPEED by {
        assert(t[i]@ == stepped(s, i));
        lemma_clamp_speed_bounded(vadd(s[i].velocity@, velocity_delta_of(s, i)));
    }
}

proof fn lemma_sums_remove(s: Seq<Agent>, i: int)
    requires
        0 <= i < s.len(),
    ensures
        vadd(position_sum(s.remove(i)), s[i].position@) == position_sum(s),
        vadd(velocity_sum(s.remove(i)), s[i].velocity@) == velocity_sum(s),
    decreases s.len(),
{
    if i == s.len() - 1 {
        assert(s.remove(i) =~= s.drop_last());
    } else {
        lemma_sums_remove(s.drop_last(), i);
        assert(s.remove(i).drop_last() =~= s.drop_last().remove(i));
        assert(s.remove(i).last() == s.last());
    }
}

/// An agent's view of "the others" leaves itself out: the cohesion and
/// alignment pulls on agent `i` are built from the sums over the flock without
/// `i`, compared with `num_others` copies of its own position and velocity.
pub proof fn lemma_others_exclude_self(s: Seq<Agent>, i: int)
    requires
        0 <= i < s.len(),
    ensures
        cohesion_pull(s, i) == vsub(position_sum(s.remove(i)), vscale(num_others(s), s[i].position@)),
        alignment_pull(s, i) == vsub(velocity_sum(s.remove(i)), vscale(num_others(s), s[i].velocity@)),
{
    lemma_sums_remove(s, i);
    let n = num_others(s);
    let (p, v) = (s[i].position@, s[i].velocity@);
    assert(vscale(n + 1, p) == vadd(vscale(n, p), p)) by (nonlinear_arith);
    assert(vscale(n + 1, v) == vadd(vscale(n, v), v)) by (nonlinear_arith);
}

/// In a flock of two, the cohesion pull on each agent is exactly its
/// displacement to the other agent, with no share of its own position.
pub proof fn lemma_pair_cohesion(s: Seq<Agent>)
    requires
        s.len() == 2,
    ensures
        cohesion_pull(s, 0) == vsub(s[1].position@, s[0].position@),
        cohesion_pull(s, 1) == vsub(s[0].position@, s[1].position@),
{
    lemma_others_exclude_self(s, 0);
    lemma_others_exclude_self(s, 1);
    let r0 = s.remove(0);
    let r1 = s.remove(1);
    assert(r0.drop_last().len() == 0 && r1.drop_last().len() == 0);
    assert(r0.last() == s[1] && r1.last() == s[0]);
    assert(position_sum(r0.drop_last()) == (0int, 0int, 0int));
    assert(position_sum(r1.drop_last()) == (0int, 0int, 0int));
    assert(position_sum(r0) == s[1].position@);
    assert(position_sum(r1) == s[0].position@);
    assert(vscale(1, s[0].position@) == s[0].position@);
    assert(vscale(1, s[1].position@) == s[1].position@);
}

proof fn lemma_norm_sq_swap(a: (int, int, int), b: (int, int, int))
    ensures
        norm_sq(vsub(a, b)) == norm_sq(vsub(b, a)),
{
    assert(norm_sq(vsub(a, b)) == norm_sq(vsub(b, a))) by (nonlinear_arith);
}

/// In a flock of two, each agent is pushed straight away from the other when
/// they are within `PERSONAL_SPACE`, by the same amount in opposite
/// directions, and not pushed at all when they are farther apart.
pub proof fn lemma_pair_avoidance(s: Seq<Agent>)
    requires
        s.len() == 2,
    ensures
        is_close(vsub(s[0].position@, s[1].position@)) ==> avoidance_of(s, 0) == vsub(
            s[0].position@,
            s[1].position@,
        ) && avoidance_of(s, 1) == vsub(s[1].position@, s[0].position@),
        is_close(vsub(s[0].position@, s[1].position@)) && s[0].position@ != s[1].position@
            ==> avoidance_of(s, 0) != (0int, 0int, 0int) && avoidance_of(s, 1) != (0int, 0int, 0int),
        !is_close(vsub(s[0].position@, s[1].position@)) ==> avoidance_of(s, 0) == (0int, 0int, 0int)
            && avoidance_of(s, 1) == (0int, 0int, 0int),
{
    lemma_norm_sq_swap(s[0].position@, s[1].position@);
    assert(avoidance_upto(s, 0, 0) == (0int, 0int, 0int));
    assert(avoidance_upto(s, 0, 1) == (0int, 0int, 0int));
    assert(avoidance_upto(s, 1, 0) == (0int, 0int, 0int));
    let d = vsub(s[1].position@, s[0].position@);
    assert(avoidance_upto(s, 1, 1) == (if is_close(d) { d } else { (0int, 0int, 0int) }));
    assert(avoidance_upto(s, 1, 2) == avoidance_upto(s, 1, 1));
}

/// A tick is a function of the snapshot: two ticks of the same flock agree.
pub proof fn lemma_tick_deterministic(s: Seq<Agent>, t1: Seq<Agent>, t2: Seq<Agent>)
    requires
        is_tick(s, t1),
        is_tick(s, t2),
    ensures
        t1 == t2,
{
    assert forall|i: int| 0 <= i < t1.len() implies t1[i] == t2[i] by {
        assert(t1[i]@ == stepped(s, i));
        assert(t2[i]@ == stepped(s, i));
    }
    assert(t1 =~= t2);
}

/// A lone agent is not steered: no avoidance, no velocity change, and it
/// moves by its own velocity.
pub proof fn lemma_lone_agent(s: Seq<Agent>)
    requires
        s.len() == 1,
        flock_ok(s),
    ensures
        avoidance_of(s, 0) == (0int, 0int, 0int),
        velocity_delta_of(s, 0) == (0int, 0int, 0int),
        next_velocity(s, 0) == s[0].velocity@,
        stepped(s, 0).0 == vadd(s[0].position@, s[0].velocity@),
{
    assert(agent_ok(s[0]));
    assert(avoidance_upto(s, 0, 0) == (0int, 0int, 0int));
    assert(vadd(s[0].velocity@, velocity_delta_of(s, 0)) == s[0].velocity@);
}

} // verus!

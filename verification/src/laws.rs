//! The laws the integrator obeys, proved once and for all over the
//! mathematical model: Newton's third law for every pair, the exactness of
//! the no-op step, the inertia of an isolated body, two-body momentum
//! conservation, and the independence of the physics from body order.

use vstd::arithmetic::div_mod::lemma_div_of0;
use vstd::arithmetic::mul::lemma_mul_unary_negation;
use vstd::prelude::*;
use vstd::seq_lib::{to_multiset_contains, to_multiset_len, to_multiset_remove};

use crate::model::{v2_add, v2_neg, v2_scale, v2_zero, MotionModel, PlanetModel, Vec2Model};
use crate::physics::{
    accel_of, div_trunc, force_den, iabs, net_force, pair_force, sgn,
    step_motion, step_planet, step_world, sum_forces,
};

verus! {

/// Newton's third law, exactly: the force on `a` due to `b` is the exact
/// negation of the force on `b` due to `a`, whatever the two bodies are.
pub proof fn lemma_pair_force_antisymmetric(g: int, a: PlanetModel, b: PlanetModel)
    ensures
        pair_force(g, a, b) == v2_neg(pair_force(g, b, a)),
{
    let dx: int = b.motion.position.x - a.motion.position.x;
    let dy: int = b.motion.position.y - a.motion.position.y;
    assert((-dx) * (-dx) == dx * dx && (-dy) * (-dy) == dy * dy) by (nonlinear_arith);
    assert(force_den(-dx, -dy) == force_den(dx, dy));
    assert(g * b.mass * a.mass == g * a.mass * b.mass) by (nonlinear_arith);
    let mag: int = g * a.mass * b.mass;
    let qx: int = (mag * iabs(dx)) / force_den(dx, dy);
    let qy: int = (mag * iabs(dy)) / force_den(dx, dy);
    assert(iabs(-dx) == iabs(dx) && iabs(-dy) == iabs(dy));
    assert(sgn(-dx) == -sgn(dx) && sgn(-dy) == -sgn(dy));
    lemma_mul_unary_negation(sgn(dx), qx);
    lemma_mul_unary_negation(sgn(dy), qy);
    assert(pair_force(g, b, a).x == -(sgn(dx) * qx));
    assert(pair_force(g, b, a).y == -(sgn(dy) * qy));
}

/// A step of duration zero moves nothing: the stepped world is the world.
pub proof fn lemma_step_zero_dt(g: int, s: Seq<PlanetModel>)
    ensures
        step_world(g, s, 0) == s,
{
    assert forall|i: int| 0 <= i < s.len() implies #[trigger] step_world(g, s, 0)[i] == s[i] by {
        let acc: Vec2Model = accel_of(net_force(g, s, i), s[i].mass);
        assert(acc.x * 0 == 0 && acc.y * 0 == 0) by (nonlinear_arith);
        let v: Vec2Model = step_motion(s[i].motion, net_force(g, s, i), s[i].mass, 0).velocity;
        assert(v == s[i].motion.velocity);
        assert(v.x * 0 == 0 && v.y * 0 == 0) by (nonlinear_arith);
        assert(step_planet(g, s, i, 0) =~= s[i]);
    }
    assert(step_world(g, s, 0) =~= s);
}

/// An isolated body feels no force: one step keeps its velocity and moves
/// its position by exactly `velocity * dt`.
pub proof fn lemma_single_body_step(g: int, s: Seq<PlanetModel>, dt: int)
    requires
        s.len() == 1,
        s[0].mass >= 1,
    ensures
        step_world(g, s, dt).len() == 1,
        step_world(g, s, dt)[0].motion.velocity == s[0].motion.velocity,
        step_world(g, s, dt)[0].motion.position == v2_add(
            s[0].motion.position,
            v2_scale(s[0].motion.velocity, dt),
        ),
        step_world(g, s, dt)[0].name == s[0].name,
        step_world(g, s, dt)[0].mass == s[0].mass,
{
    s.remove_ensures(0);
    assert(s.remove(0).len() == 0);
    assert(net_force(g, s, 0) == v2_zero());
    lemma_div_of0(s[0].mass);
    assert(div_trunc(0, s[0].mass) == 0);
    let acc: Vec2Model = accel_of(net_force(g, s, 0), s[0].mass);
    assert(acc.x * dt == 0 && acc.y * dt == 0) by (nonlinear_arith)
        requires
            acc.x == 0 && acc.y == 0,
    {}
    let m1: MotionModel = step_motion(s[0].motion, net_force(g, s, 0), s[0].mass, dt);
    assert(m1.velocity =~= s[0].motion.velocity);
    assert(m1.position =~= v2_add(s[0].motion.position, v2_scale(s[0].motion.velocity, dt)));
}

/// The world after `k` consecutive steps of duration `dt`.
pub open spec fn iterate_world(g: int, s: Seq<PlanetModel>, dt: int, k: nat) -> Seq<PlanetModel>
    decreases k,
{
    if k == 0 {
        s
    } else {
        step_world(g, iterate_world(g, s, dt, (k - 1) as nat), dt)
    }
}

/// An isolated body never changes velocity, over any number of steps, and
/// its position advances linearly: by exactly `k * (velocity * dt)` after
/// `k` steps, so it stays put when its initial velocity is zero.
pub proof fn lemma_single_body_inertia(g: int, s: Seq<PlanetModel>, dt: int, k: nat)
    requires
        s.len() == 1,
        s[0].mass >= 1,
    ensures
        iterate_world(g, s, dt, k).len() == 1,
        iterate_world(g, s, dt, k)[0].motion.velocity == s[0].motion.velocity,
        iterate_world(g, s, dt, k)[0].motion.position.x == s[0].motion.position.x + k * (
        s[0].motion.velocity.x * dt),
        iterate_world(g, s, dt, k)[0].motion.position.y == s[0].motion.position.y + k * (
        s[0].motion.velocity.y * dt),
        iterate_world(g, s, dt, k)[0].name == s[0].name,
        iterate_world(g, s, dt, k)[0].mass == s[0].mass,
    decreases k,
{
    if k == 0 {
        assert(0 * (s[0].motion.velocity.x * dt) == 0) by (nonlinear_arith);
        assert(0 * (s[0].motion.velocity.y * dt) == 0) by (nonlinear_arith);
    } else {
        lemma_single_body_inertia(g, s, dt, (k - 1) as nat);
        let prev: Seq<PlanetModel> = iterate_world(g, s, dt, (k - 1) as nat);
        lemma_single_body_step(g, prev, dt);
        let vx: int = s[0].motion.velocity.x;
        let vy: int = s[0].motion.velocity.y;
        assert((k - 1) * (vx * dt) + vx * dt == k * (vx * dt)) by (nonlinear_arith);
        assert((k - 1) * (vy * dt) + vy * dt == k * (vy * dt)) by (nonlinear_arith);
    }
}

/// Removing any one body from the summation removes exactly its pairwise
/// force: summation order never matters.
proof fn lemma_sum_forces_remove(g: int, me: PlanetModel, others: Seq<PlanetModel>, k: int)
    requires
        0 <= k < others.len(),
    ensures
        sum_forces(g, me, others) == v2_add(
            sum_forces(g, me, others.remove(k)),
            pair_force(g, me, others[k]),
        ),
    decreases others.len(),
{
    if k == others.len() - 1 {
        assert(others.remove(k) =~= others.drop_last());
    } else {
        let shorter: Seq<PlanetModel> = others.drop_last();
        lemma_sum_forces_remove(g, me, shorter, k);
        assert(others.remove(k).drop_last() =~= shorter.remove(k));
        assert(others.remove(k).last() == others.last());
        assert(sum_forces(g, me, others.remove(k)) == v2_add(
            sum_forces(g, me, shorter.remove(k)),
            pair_force(g, me, others.last()),
        ));
        assert(v2_add(
            v2_add(sum_forces(g, me, shorter.remove(k)), pair_force(g, me, others.last())),
            pair_force(g, me, others[k]),
        ) =~= v2_add(
            v2_add(sum_forces(g, me, shorter.remove(k)), pair_force(g, me, others[k])),
            pair_force(g, me, others.last()),
        ));
    }
}

/// Two collections holding the same bodies, in any order, exert the same
/// total force on `me`.
pub proof fn lemma_sum_forces_permutation(
    g: int,
    me: PlanetModel,
    o1: Seq<PlanetModel>,
    o2: Seq<PlanetModel>,
)
    requires
        o1.to_multiset() == o2.to_multiset(),
    ensures
        sum_forces(g, me, o1) == sum_forces(g, me, o2),
    decreases o2.len(),
{
    to_multiset_len(o1);
    to_multiset_len(o2);
    if o2.len() == 0 {
        assert(o1.len() == 0);
    } else {
        let e: PlanetModel = o2.last();
        let shorter: Seq<PlanetModel> = o2.drop_last();
        assert(o2[o2.len() - 1] == e);
        assert(o2.contains(e));
        to_multiset_contains(o2, e);
        to_multiset_contains(o1, e);
        assert(o1.contains(e));
        let k: int = choose|k: int| 0 <= k < o1.len() && o1[k] == e;
        to_multiset_remove(o1, k);
        to_multiset_remove(o2, o2.len() - 1);
        assert(o2.remove(o2.len() - 1) =~= shorter);
        assert(o1.remove(k).to_multiset() == shorter.to_multiset());
        lemma_sum_forces_permutation(g, me, o1.remove(k), shorter);
        lemma_sum_forces_remove(g, me, o1, k);
    }
}

/// Reordering the bodies of a world does not change the physics: a body
/// found at position `i` in one ordering and `j` in another steps to the
/// same name, mass and motion either way.
pub proof fn lemma_step_order_independent(
    g: int,
    s1: Seq<PlanetModel>,
    s2: Seq<PlanetModel>,
    dt: int,
    i: int,
    j: int,
)
    requires
        s1.to_multiset() == s2.to_multiset(),
        0 <= i < s1.len(),
        0 <= j < s2.len(),
        s1[i] == s2[j],
    ensures
        step_world(g, s2, dt)[j] == step_world(g, s1, dt)[i],
{
    to_multiset_remove(s1, i);
    to_multiset_remove(s2, j);
    assert(s1.remove(i).to_multiset() == s2.remove(j).to_multiset());
    lemma_sum_forces_permutation(g, s1[i], s1.remove(i), s2.remove(j));
    assert(net_force(g, s2, j) == net_force(g, s1, i));
    assert(step_planet(g, s2, j, dt) == step_planet(g, s1, i, dt));
}

/// The net forces on bodies `0` to `k - 1`, summed.
pub open spec fn total_force_upto(g: int, s: Seq<PlanetModel>, k: int) -> Vec2Model
    decreases k,
{
    if k <= 0 {
        v2_zero()
    } else {
        v2_add(total_force_upto(g, s, k - 1), net_force(g, s, k - 1))
    }
}

/// The forces exerted on bodies `0` to `k - 1` of `t` by the body `e`, summed.
spec fn attractions_upto(g: int, e: PlanetModel, t: Seq<PlanetModel>, k: int) -> Vec2Model
    decreases k,
{
    if k <= 0 {
        v2_zero()
    } else {
        v2_add(attractions_upto(g, e, t, k - 1), pair_force(g, t[k - 1], e))
    }
}

/// What `e` exerts on the bodies of `t` is the exact negation of what they
/// exert on `e`: Newton's third law, summed.
proof fn lemma_attractions_neg(g: int, e: PlanetModel, t: Seq<PlanetModel>, k: int)
    requires
        0 <= k <= t.len(),
    ensures
        attractions_upto(g, e, t, k) == v2_neg(sum_forces(g, e, t.take(k))),
    decreases k,
{
    if k == 0 {
        assert(t.take(0) =~= Seq::<PlanetModel>::empty());
        assert(attractions_upto(g, e, t, 0) =~= v2_neg(sum_forces(g, e, t.take(0))));
    } else {
        lemma_attractions_neg(g, e, t, k - 1);
        assert(t.take(k).drop_last() =~= t.take(k - 1));
        assert(t.take(k).last() == t[k - 1]);
        lemma_pair_force_antisymmetric(g, t[k - 1], e);
        assert(attractions_upto(g, e, t, k) =~= v2_neg(
            v2_add(sum_forces(g, e, t.take(k - 1)), pair_force(g, e, t[k - 1])),
        ));
    }
}

/// Dropping the final body takes exactly its pairwise force out of the net
/// force on each remaining body.
proof fn lemma_net_force_extend(g: int, s: Seq<PlanetModel>, i: int)
    requires
        s.len() >= 2,
        0 <= i < s.len() - 1,
    ensures
        net_force(g, s, i) == v2_add(
            net_force(g, s.drop_last(), i),
            pair_force(g, s[i], s.last()),
        ),
{
    let t: Seq<PlanetModel> = s.drop_last();
    assert(s.remove(i).drop_last() =~= t.remove(i));
    assert(s.remove(i).last() == s.last());
    assert(t[i] == s[i]);
    assert(s.remove(i).len() > 0);
}

/// Summed net forces split between the shorter world and the final body.
proof fn lemma_total_force_extend(g: int, s: Seq<PlanetModel>, k: int)
    requires
        s.len() >= 1,
        0 <= k <= s.len() - 1,
    ensures
        total_force_upto(g, s, k) == v2_add(
            total_force_upto(g, s.drop_last(), k),
            attractions_upto(g, s.last(), s.drop_last(), k),
        ),
    decreases k,
{
    if k == 0 {
        assert(total_force_upto(g, s, 0) =~= v2_add(
            total_force_upto(g, s.drop_last(), 0),
            attractions_upto(g, s.last(), s.drop_last(), 0),
        ));
    } else {
        lemma_total_force_extend(g, s, k - 1);
        lemma_net_force_extend(g, s, k - 1);
        assert(total_force_upto(g, s, k) =~= v2_add(
            total_force_upto(g, s.drop_last(), k),
            attractions_upto(g, s.last(), s.drop_last(), k),
        ));
    }
}

/// The net forces over all bodies of any world sum to the zero vector,
/// exactly: in exact arithmetic the forces alone transfer no momentum to
/// the system as a whole.
pub proof fn lemma_total_force_zero(g: int, s: Seq<PlanetModel>)
    ensures
        total_force_upto(g, s, s.len() as int) == v2_zero(),
    decreases s.len(),
{
    if s.len() > 0 {
        let n: int = s.len() as int;
        let t: Seq<PlanetModel> = s.drop_last();
        let e: PlanetModel = s.last();
        lemma_total_force_zero(g, t);
        lemma_total_force_extend(g, s, n - 1);
        assert(s.remove(n - 1) =~= t);
        assert(net_force(g, s, n - 1) == sum_forces(g, e, t));
        lemma_attractions_neg(g, e, t, n - 1);
        assert(t.take(n - 1) =~= t);
        assert(total_force_upto(g, s, n) =~= v2_zero());
    }
}

/// Division rounding toward zero is an odd function of the dividend.
proof fn lemma_div_trunc_odd(a: int, b: int)
    requires
        b >= 1,
    ensures
        div_trunc(-a, b) == -div_trunc(a, b),
{
    if a == 0 {
        lemma_div_of0(b);
    }
}

/// For two bodies of equal mass, one step conserves total momentum exactly:
/// the equal-and-opposite forces produce equal-and-opposite velocity
/// changes, whatever the truncation does to either.
pub proof fn lemma_two_body_momentum(g: int, s: Seq<PlanetModel>, dt: int)
    requires
        s.len() == 2,
        s[0].mass == s[1].mass,
        s[0].mass >= 1,
    ensures
        v2_add(
            v2_scale(step_world(g, s, dt)[0].motion.velocity, s[0].mass),
            v2_scale(step_world(g, s, dt)[1].motion.velocity, s[1].mass),
        ) == v2_add(
            v2_scale(s[0].motion.velocity, s[0].mass),
            v2_scale(s[1].motion.velocity, s[1].mass),
        ),
{
    let m: int = s[0].mass;
    let f: Vec2Model = pair_force(g, s[0], s[1]);
    assert(sum_forces(g, s[0], Seq::<PlanetModel>::empty()) == v2_zero());
    assert(sum_forces(g, s[1], Seq::<PlanetModel>::empty()) == v2_zero());
    assert(s.remove(0) =~= seq![s[1]]);
    assert(s.remove(0).drop_last() =~= Seq::<PlanetModel>::empty());
    assert(s.remove(0).last() == s[1]);
    assert(net_force(g, s, 0) == v2_add(v2_zero(), f));
    assert(net_force(g, s, 0) =~= f);
    assert(s.remove(1) =~= seq![s[0]]);
    assert(s.remove(1).drop_last() =~= Seq::<PlanetModel>::empty());
    assert(s.remove(1).last() == s[0]);
    lemma_pair_force_antisymmetric(g, s[0], s[1]);
    assert(net_force(g, s, 1) == v2_add(v2_zero(), v2_neg(f)));
    assert(net_force(g, s, 1) =~= v2_neg(f));
    lemma_div_trunc_odd(f.x, m);
    lemma_div_trunc_odd(f.y, m);
    let dx: int = div_trunc(f.x, m);
    let dy: int = div_trunc(f.y, m);
    assert(accel_of(net_force(g, s, 0), m) =~= (Vec2Model { x: dx, y: dy }));
    assert(accel_of(net_force(g, s, 1), m) =~= (Vec2Model { x: -dx, y: -dy }));
    let v0: Vec2Model = s[0].motion.velocity;
    let v1: Vec2Model = s[1].motion.velocity;
    assert((-dx) * dt == -(dx * dt) && (-dy) * dt == -(dy * dt)) by (nonlinear_arith);
    assert((v0.x + dx * dt) * m + (v1.x - dx * dt) * m == v0.x * m + v1.x * m)
        by (nonlinear_arith);
    assert((v0.y + dy * dt) * m + (v1.y - dy * dt) * m == v0.y * m + v1.y * m)
        by (nonlinear_arith);
    assert(v2_add(
        v2_scale(step_world(g, s, dt)[0].motion.velocity, m),
        v2_scale(step_world(g, s, dt)[1].motion.velocity, m),
    ) =~= v2_add(v2_scale(v0, m), v2_scale(v1, m)));
}

} // verus!

//! The integrator: pairwise gravitational forces over a world of bodies and
//! a semi-implicit (symplectic) Euler step.
//!
//! The mathematical step is defined by the spec functions below, over exact
//! integers. For each ordered pair of distinct bodies `(i, j)` the force on
//! `i` due to `j` has magnitude `G * m_i * m_j / r_eff^2` and points along
//! the separation vector, where `r_eff` is the separation softened to at
//! least `SOFTENING` so that coinciding bodies exert a finite force. Each
//! component is rounded toward zero. The step then updates, per body,
//! velocity before position:
//! `v' = v + (F / m) * dt` and `p' = p + v' * dt`,
//! with the acceleration `F / m` rounded toward zero. Forces are taken from
//! the frozen pre-step positions, so the outcome does not depend on the
//! order in which bodies are updated.

use vstd::arithmetic::div_mod::{
    lemma_div_nonincreasing, lemma_div_of0, lemma_div_pos_is_pos, lemma_multiply_divide_le,
};
use vstd::arithmetic::mul::lemma_mul_inequality;
use vstd::prelude::*;

use crate::isqrt::{
    isqrt_u128, lemma_sqrt_floor_bounds, lemma_sqrt_floor_monotone, lemma_sqrt_floor_square,
    sqrt_floor,
};
use crate::model::{
    motion_in_range, v2_add, v2_zero, world_wf, Motion, MotionModel, Planet, PlanetModel,
    SimError, Vec2Model, Vector2, World, POS_MAX, VEL_MAX,
};

verus! {

/// Largest admissible gravitational constant, in force length^2 / mass^2 units.
pub const G_MAX: i64 = 1_000_000;

/// Gravitational constant of a universe constructed without an explicit one.
pub const DEFAULT_G: i64 = 1;

/// Largest time step a single update may take, in time units.
pub const DT_MAX: i64 = 100_000;

/// Softening floor: the smallest effective separation used in the force
/// denominator, in length units. One length unit is the smallest meaningful
/// separation, so coinciding bodies are treated as one unit apart.
pub const SOFTENING: i64 = 1;

/// Largest magnitude a single pairwise force component can take:
/// `G_MAX * MASS_MAX * MASS_MAX`.
pub const FORCE_MAX: i64 = 1_000_000_000_000_000_000;

/// `|x|` over mathematical integers.
pub open spec fn iabs(x: int) -> int {
    if x < 0 {
        -x
    } else {
        x
    }
}

/// The sign of `x`: -1, 0 or 1.
pub open spec fn sgn(x: int) -> int {
    if x > 0 {
        1
    } else if x < 0 {
        -1
    } else {
        0
    }
}

/// Division rounding toward zero (the divisor is expected positive).
pub open spec fn div_trunc(a: int, b: int) -> int {
    if a >= 0 {
        a / b
    } else {
        -((-a) / b)
    }
}

/// The separation softened to at least `SOFTENING`.
pub open spec fn softened(r: int) -> int {
    if r < SOFTENING {
        SOFTENING as int
    } else {
        r
    }
}

/// The force denominator for a separation `(dx, dy)`: the cube of the
/// softened distance, combining the inverse-square magnitude with the
/// normalisation of the direction vector.
pub open spec fn force_den(dx: int, dy: int) -> int {
    let re: int = softened(sqrt_floor(dx * dx + dy * dy));
    re * re * re
}

/// The gravitational force exerted on `a` by `b`, componentwise
/// `sgn(d) * (g * m_a * m_b * |d|) / den` with `den = force_den(dx, dy)`.
pub open spec fn pair_force(g: int, a: PlanetModel, b: PlanetModel) -> Vec2Model {
    let dx: int = b.motion.position.x - a.motion.position.x;
    let dy: int = b.motion.position.y - a.motion.position.y;
    let mag: int = g * a.mass * b.mass;
    Vec2Model {
        x: sgn(dx) * ((mag * iabs(dx)) / force_den(dx, dy)),
        y: sgn(dy) * ((mag * iabs(dy)) / force_den(dx, dy)),
    }
}

/// The sum of the forces exerted on `me` by each body in `others`.
pub open spec fn sum_forces(g: int, me: PlanetModel, others: Seq<PlanetModel>) -> Vec2Model
    decreases others.len(),
{
    if others.len() == 0 {
        v2_zero()
    } else {
        v2_add(
            sum_forces(g, me, others.drop_last()),
            pair_force(g, me, others.last()),
        )
    }
}

/// The net force on body `i`: the sum of the forces from every other body.
pub open spec fn net_force(g: int, s: Seq<PlanetModel>, i: int) -> Vec2Model {
    sum_forces(g, s[i], s.remove(i))
}

/// The acceleration `f / mass`, componentwise, rounded toward zero.
pub open spec fn accel_of(f: Vec2Model, mass: int) -> Vec2Model {
    Vec2Model { x: div_trunc(f.x, mass), y: div_trunc(f.y, mass) }
}

/// One semi-implicit Euler step of a single body's motion under net force
/// `f`: the velocity moves first, the position moves with the new velocity.
pub open spec fn step_motion(m: MotionModel, f: Vec2Model, mass: int, dt: int) -> MotionModel {
    let a: Vec2Model = accel_of(f, mass);
    let v: Vec2Model = Vec2Model { x: m.velocity.x + a.x * dt, y: m.velocity.y + a.y * dt };
    let p: Vec2Model = Vec2Model { x: m.position.x + v.x * dt, y: m.position.y + v.y * dt };
    MotionModel { position: p, velocity: v }
}

/// Body `i` after one step of the whole world: same name and mass, motion
/// advanced under the net force taken from the pre-step snapshot `s`.
pub open spec fn step_planet(g: int, s: Seq<PlanetModel>, i: int, dt: int) -> PlanetModel {
    let p: PlanetModel = s[i];
    PlanetModel {
        name: p.name,
        mass: p.mass,
        motion: step_motion(p.motion, net_force(g, s, i), p.mass, dt),
    }
}

/// The whole world after one step of duration `dt`.
pub open spec fn step_world(g: int, s: Seq<PlanetModel>, dt: int) -> Seq<PlanetModel> {
    Seq::new(s.len(), |i: int| step_planet(g, s, i, dt))
}

/// Every body's stepped motion stays within the representable range.
pub open spec fn step_in_range(g: int, s: Seq<PlanetModel>, dt: int) -> bool {
    forall|i: int|
        0 <= i < s.len() ==> motion_in_range(#[trigger] step_planet(g, s, i, dt).motion)
}

/// The force denominator is at least 1 and dominates each separation
/// component, so each force component is bounded by `g * m_a * m_b`.
pub proof fn lemma_force_den_bounds(dx: int, dy: int)
    ensures
        force_den(dx, dy) >= 1,
        force_den(dx, dy) >= iabs(dx),
        force_den(dx, dy) >= iabs(dy),
{
    let q: int = dx * dx + dy * dy;
    assert(dx * dx == iabs(dx) * iabs(dx) && dy * dy == iabs(dy) * iabs(dy)) by (nonlinear_arith);
    assert(dx * dx >= 0 && dy * dy >= 0) by (nonlinear_arith);
    lemma_sqrt_floor_bounds(q);
    let r: int = sqrt_floor(q);
    lemma_sqrt_floor_monotone(dx * dx, q);
    lemma_sqrt_floor_monotone(dy * dy, q);
    lemma_sqrt_floor_square(iabs(dx));
    lemma_sqrt_floor_square(iabs(dy));
    let re: int = softened(r);
    assert(re >= 1 && re >= iabs(dx) && re >= iabs(dy));
    assert(re * re * re >= re) by (nonlinear_arith)
        requires
            re >= 1,
    {}
}

/// A single pairwise force component never exceeds `g * m_a * m_b` in
/// magnitude; in particular the softening floor keeps it finite and bounded
/// even for coinciding bodies, and coinciding bodies exert no force at all.
pub proof fn lemma_pair_force_bounded(g: int, a: PlanetModel, b: PlanetModel)
    requires
        1 <= g,
        1 <= a.mass,
        1 <= b.mass,
    ensures
        iabs(pair_force(g, a, b).x) <= g * a.mass * b.mass,
        iabs(pair_force(g, a, b).y) <= g * a.mass * b.mass,
        a.motion.position == b.motion.position ==> pair_force(g, a, b) == v2_zero(),
{
    let dx: int = b.motion.position.x - a.motion.position.x;
    let dy: int = b.motion.position.y - a.motion.position.y;
    let mag: int = g * a.mass * b.mass;
    let den: int = force_den(dx, dy);
    assert(g * a.mass * b.mass >= 1) by (nonlinear_arith)
        requires
            g >= 1 && a.mass >= 1 && b.mass >= 1,
    {}
    lemma_force_den_bounds(dx, dy);
    lemma_force_quotient_bound(mag, iabs(dx), den);
    lemma_force_quotient_bound(mag, iabs(dy), den);
    lemma_sgn_scale(dx, (mag * iabs(dx)) / den);
    lemma_sgn_scale(dy, (mag * iabs(dy)) / den);
}

/// Scaling a non-negative `q` by a sign keeps its magnitude and resolves to
/// `q`, `-q` or `0`.
pub proof fn lemma_sgn_scale(d: int, q: int)
    requires
        q >= 0,
    ensures
        iabs(sgn(d) * q) <= q,
        sgn(d) * q == if d > 0 { q } else if d < 0 { -q } else { 0 },
{
    if d > 0 {
        assert(1 * q == q) by (nonlinear_arith);
    } else if d < 0 {
        assert((-1) * q == -q) by (nonlinear_arith);
    } else {
        assert(0 * q == 0) by (nonlinear_arith);
    }
}

/// For `0 <= ad <= den` and `mag >= 0`, the quotient `(mag * ad) / den`
/// lies in `[0, mag]`.
proof fn lemma_force_quotient_bound(mag: int, ad: int, den: int)
    requires
        mag >= 0,
        0 <= ad <= den,
        den >= 1,
    ensures
        0 <= (mag * ad) / den <= mag,
{
    lemma_mul_inequality(ad, den, mag);
    assert(ad * mag == mag * ad && den * mag == mag * den) by (nonlinear_arith);
    lemma_multiply_divide_le(mag * ad, den, mag);
    assert(mag * ad >= 0) by (nonlinear_arith)
        requires
            mag >= 0 && ad >= 0,
    {}
    lemma_div_pos_is_pos(mag * ad, den);
}

/// Appending one body to the summation adds its pairwise force.
pub proof fn lemma_sum_forces_push(g: int, me: PlanetModel, others: Seq<PlanetModel>, p: PlanetModel)
    ensures
        sum_forces(g, me, others.push(p)) == v2_add(sum_forces(g, me, others), pair_force(g, me, p)),
{
    assert(others.push(p).drop_last() =~= others);
    assert(others.push(p).last() == p);
}

/// Division rounding toward zero, exactly as `div_trunc` states it; the
/// magnitude never grows.
pub(crate) fn div_trunc_i128(a: i128, b: i64) -> (q: i128)
    requires
        1 <= b,
        -170_141_183_460_469_231_731_687_303_715_884_105_727 <= a,
    ensures
        q == div_trunc(a as int, b as int),
        iabs(q as int) <= iabs(a as int),
{
    if a >= 0 {
        let qq: u128 = (a as u128) / (b as u128);
        proof {
            lemma_div_pos_is_pos(a as int, b as int);
            lemma_div_nonincreasing(a as int, b as int);
        }
        qq as i128
    } else {
        let na: u128 = (-a) as u128;
        let qq: u128 = na / (b as u128);
        proof {
            lemma_div_pos_is_pos(na as int, b as int);
            lemma_div_nonincreasing(na as int, b as int);
        }
        -(qq as i128)
    }
}

/// The integrator. It holds the gravitational constant and operates on a
/// `World` passed to it; it stores no per-body state of its own.
#[derive(Clone, Copy, Debug)]
pub struct Universe {
    g: i64,
}

impl Universe {
    /// The gravitational constant, as a mathematical integer.
    pub closed spec fn gravity(self) -> int {
        self.g as int
    }

    /// The gravitational constant lies in its admissible range.
    pub open spec fn wf(self) -> bool {
        1 <= self.gravity() <= G_MAX
    }

    /// A universe with the default gravitational constant.
    pub fn new() -> (u: Universe)
        ensures
            u.gravity() == DEFAULT_G as int,
            u.wf(),
    {
        Universe { g: DEFAULT_G }
    }

    /// A universe with an explicit gravitational constant; a value outside
    /// `[1, G_MAX]` is rejected.
    pub fn with_gravity(g: i64) -> (r: Result<Universe, SimError>)
        ensures
            (1 <= g <= G_MAX) ==> (r matches Ok(u) && u.gravity() == g as int && u.wf()),
            !(1 <= g <= G_MAX) ==> r == Err::<Universe, SimError>(SimError::GravityOutOfRange),
    {
        if 1 <= g && g <= G_MAX {
            Ok(Universe { g })
        } else {
            Err(SimError::GravityOutOfRange)
        }
    }

    /// The gravitational constant as a value.
    pub fn gravity_value(&self) -> (g: i64)
        ensures
            g as int == self.gravity(),
    {
        self.g
    }

    /// The force exerted on `a` by `b`, exactly as the model states it.
    /// Each component fits in an `i64` because it is bounded by
    /// `G_MAX * MASS_MAX * MASS_MAX`.
    pub fn force_between(&self, a: &Planet, b: &Planet) -> (f: (i64, i64))
        requires
            self.wf(),
            a@.wf(),
            b@.wf(),
        ensures
            f.0 == pair_force(self.gravity(), a@, b@).x,
            f.1 == pair_force(self.gravity(), a@, b@).y,
            iabs(f.0 as int) <= FORCE_MAX,
            iabs(f.1 as int) <= FORCE_MAX,
    {
        let dx: i128 = b.motion.position.x as i128 - a.motion.position.x as i128;
        let dy: i128 = b.motion.position.y as i128 - a.motion.position.y as i128;
        let adx: u128 = if dx < 0 {
            (-dx) as u128
        } else {
            dx as u128
        };
        let ady: u128 = if dy < 0 {
            (-dy) as u128
        } else {
            dy as u128
        };
        proof {
            assert(iabs(dx as int) == adx && iabs(dy as int) == ady);
            assert(adx * adx == dx * dx && adx * adx <= 4_000_000_000_000_000_000_000_000
                && ady * ady == dy * dy && ady * ady <= 4_000_000_000_000_000_000_000_000)
                by (nonlinear_arith)
                requires
                    (adx == dx || adx == -dx) && (ady == dy || ady == -dy),
                    0 <= adx <= 2_000_000_000_000,
                    0 <= ady <= 2_000_000_000_000,
            {}
        }
        let dist_sq: u128 = adx * adx + ady * ady;
        let r: u128 = isqrt_u128(dist_sq);
        proof {
            lemma_sqrt_floor_bounds(dist_sq as int);
            assert(r <= 3_000_000_000_000) by (nonlinear_arith)
                requires
                    r >= 0 && r * r <= 8_000_000_000_000_000_000_000_000,
            {}
        }
        let re: u128 = if r < SOFTENING as u128 {
            SOFTENING as u128
        } else {
            r
        };
        proof {
            assert(re * re <= 9_000_000_000_000_000_000_000_000
                && re * re * re <= 27_000_000_000_000_000_000_000_000_000_000_000_000)
                by (nonlinear_arith)
                requires
                    0 <= re <= 3_000_000_000_000,
            {}
        }
        let den: u128 = re * re * re;
        proof {
            assert((self.g as int) * (a.mass as int) <= 1_000_000_000_000
                && (self.g as int) * (a.mass as int) >= 1) by (nonlinear_arith)
                requires
                    1 <= self.g as int <= 1_000_000 && 1 <= a.mass as int <= 1_000_000,
            {}
        }
        let gm: u128 = (self.g as u128) * (a.mass as u128);
        proof {
            assert(gm * (b.mass as int) <= 1_000_000_000_000_000_000 && gm * (b.mass as int) >= 1)
                by (nonlinear_arith)
                requires
                    1 <= gm <= 1_000_000_000_000 && 1 <= b.mass as int <= 1_000_000,
            {}
        }
        let mag: u128 = gm * (b.mass as u128);
        proof {
            assert(mag * adx <= 2_000_000_000_000_000_000_000_000_000_000
                && mag * ady <= 2_000_000_000_000_000_000_000_000_000_000)
                by (nonlinear_arith)
                requires
                    0 <= mag <= 1_000_000_000_000_000_000,
                    0 <= adx <= 2_000_000_000_000,
                    0 <= ady <= 2_000_000_000_000,
            {}
            lemma_force_den_bounds(dx as int, dy as int);
            assert(force_den(dx as int, dy as int) == den);
            lemma_force_quotient_bound(mag as int, adx as int, den as int);
            lemma_force_quotient_bound(mag as int, ady as int, den as int);
        }
        let qx: u128 = mag * adx / den;
        let qy: u128 = mag * ady / den;
        proof {
            lemma_div_of0(den as int);
            assert(adx == 0 ==> mag * adx == 0) by (nonlinear_arith);
            assert(ady == 0 ==> mag * ady == 0) by (nonlinear_arith);
            assert(adx == 0 ==> qx == 0);
            assert(ady == 0 ==> qy == 0);
        }
        let fx: i64 = if dx < 0 {
            -(qx as i64)
        } else {
            qx as i64
        };
        let fy: i64 = if dy < 0 {
            -(qy as i64)
        } else {
            qy as i64
        };
        proof {
            lemma_sgn_scale(dx as int, qx as int);
            lemma_sgn_scale(dy as int, qy as int);
            assert(pair_force(self.gravity(), a@, b@).x == sgn(dx as int) * (qx as int));
            assert(pair_force(self.gravity(), a@, b@).y == sgn(dy as int) * (qy as int));
            assert(fx as int == sgn(dx as int) * (qx as int));
            assert(fy as int == sgn(dy as int) * (qy as int));
        }
        (fx, fy)
    }

    /// The net force on body `i`, accumulated pair by pair from the frozen
    /// positions in `world`.
    fn net_force_on(&self, world: &World, i: usize) -> (f: (i128, i128))
        requires
            self.wf(),
            world_wf(world@),
            (i as int) < world@.len(),
        ensures
            f.0 == net_force(self.gravity(), world@, i as int).x,
            f.1 == net_force(self.gravity(), world@, i as int).y,
            iabs(f.0 as int) <= world@.len() * (FORCE_MAX as int),
            iabs(f.1 as int) <= world@.len() * (FORCE_MAX as int),
    {
        let ghost s: Seq<PlanetModel> = world@;
        let ghost others: Seq<PlanetModel> = s.remove(i as int);
        let n: usize = world.planets.len();
        let mut fx: i128 = 0;
        let mut fy: i128 = 0;
        let mut j: usize = 0;
        proof {
            s.remove_ensures(i as int);
            assert(others.take(0) =~= Seq::<PlanetModel>::empty());
        }
        while j < n
            invariant
                self.wf(),
                world_wf(s),
                s == world@,
                n == s.len(),
                i < n,
                j <= n,
                others == s.remove(i as int),
                others.len() == n - 1,
                ({
                    let k: int = if j <= i { j as int } else { j as int - 1 };
                    fx == sum_forces(self.gravity(), s[i as int], others.take(k)).x
                        && fy == sum_forces(self.gravity(), s[i as int], others.take(k)).y
                        && iabs(fx as int) <= k * (FORCE_MAX as int)
                        && iabs(fy as int) <= k * (FORCE_MAX as int)
                }),
            decreases n - j,
        {
            if j != i {
                let ghost k: int = if j <= i { j as int } else { j as int - 1 };
                proof {
                    assert(s[j as int].wf() && s[i as int].wf());
                }
                let (px, py) = self.force_between(&world.planets[i], &world.planets[j]);
                proof {
                    assert(others[k] == s[j as int]);
                    assert(others.take(k + 1) =~= others.take(k).push(others[k]));
                    lemma_sum_forces_push(
                        self.gravity(),
                        s[i as int],
                        others.take(k),
                        others[k],
                    );
                }
                fx = fx + px as i128;
                fy = fy + py as i128;
            }
            j += 1;
        }
        proof {
            assert(others.take(others.len() as int) =~= others);
        }
        (fx, fy)
    }

    /// Advances every body in `world` by `dt` time units, or reports why it
    /// cannot: time running backwards, a step too large, a malformed world,
    /// or a step that would leave the representable range. On any error the
    /// world is left untouched; on success the world is exactly the stepped
    /// world of the model.
    pub fn try_update(&self, dt: i64, world: &mut World) -> (r: Result<(), SimError>)
        requires
            self.wf(),
        ensures
            match r {
                Ok(()) => 0 <= dt <= DT_MAX && world_wf(old(world)@)
                    && step_in_range(self.gravity(), old(world)@, dt as int)
                    && final(world)@ == step_world(self.gravity(), old(world)@, dt as int)
                    && world_wf(final(world)@),
                Err(e) => *final(world) == *old(world) && match e {
                    SimError::NegativeTime => dt < 0,
                    SimError::TimeStepTooLarge => dt > DT_MAX,
                    SimError::InvalidWorld => 0 <= dt <= DT_MAX && !world_wf(old(world)@),
                    SimError::Overflow => 0 <= dt <= DT_MAX && world_wf(old(world)@)
                        && !step_in_range(self.gravity(), old(world)@, dt as int),
                    _ => false,
                },
            },
    {
        if dt < 0 {
            return Err(SimError::NegativeTime);
        }
        if dt > DT_MAX {
            return Err(SimError::TimeStepTooLarge);
        }
        if !world.is_well_formed() {
            return Err(SimError::InvalidWorld);
        }
        let ghost s: Seq<PlanetModel> = world@;
        let ghost g: int = self.gravity();
        let n: usize = world.planets.len();

        // First pass: net force per body, from the frozen snapshot.
        let mut forces: Vec<(i128, i128)> = Vec::new();
        let mut i: usize = 0;
        while i < n
            invariant
                self.wf(),
                g == self.gravity(),
                world_wf(s),
                s == world@,
                n == s.len(),
                i <= n,
                forces@.len() == i as int,
                forall|k: int| 0 <= k < i as int ==> (#[trigger] forces@[k]).0 == net_force(g, s, k).x
                    && forces@[k].1 == net_force(g, s, k).y
                    && iabs(forces@[k].0 as int) <= 1_000_000_000_000_000_000_000
                    && iabs(forces@[k].1 as int) <= 1_000_000_000_000_000_000_000,
            decreases n - i,
        {
            let f = self.net_force_on(world, i);
            proof {
                assert(s.len() * (FORCE_MAX as int) <= 1_000_000_000_000_000_000_000);
            }
            forces.push(f);
            i += 1;
        }

        // Second pass: integrate each body's motion from the gathered
        // forces, rejecting the step if any result leaves the range.
        let mut motions: Vec<Motion> = Vec::new();
        i = 0;
        while i < n
            invariant
                self.wf(),
                g == self.gravity(),
                world_wf(s),
                s == world@,
                n == s.len(),
                i <= n,
                0 <= dt <= DT_MAX,
                forces@.len() == n as int,
                forall|k: int| 0 <= k < n as int ==> (#[trigger] forces@[k]).0 == net_force(g, s, k).x
                    && forces@[k].1 == net_force(g, s, k).y
                    && iabs(forces@[k].0 as int) <= 1_000_000_000_000_000_000_000
                    && iabs(forces@[k].1 as int) <= 1_000_000_000_000_000_000_000,
                motions@.len() == i as int,
                forall|k: int| 0 <= k < i as int ==> (#[trigger] motions@[k])@
                    == step_planet(g, s, k, dt as int).motion
                    && motion_in_range(step_planet(g, s, k, dt as int).motion),
            decreases n - i,
        {
            let fx: i128 = forces[i].0;
            let fy: i128 = forces[i].1;
            proof {
                assert(s[i as int].wf());
            }
            let body_mass: i64 = world.planets[i].mass;
            let ax: i128 = div_trunc_i128(fx, body_mass);
            let ay: i128 = div_trunc_i128(fy, body_mass);
            proof {
                assert(-1_000_000_000_000_000_000_000 <= ax as int <= 1_000_000_000_000_000_000_000);
                assert(-1_000_000_000_000_000_000_000 <= ay as int <= 1_000_000_000_000_000_000_000);
                assert(-100_000_000_000_000_000_000_000_000 <= (ax as int) * (dt as int)
                    <= 100_000_000_000_000_000_000_000_000
                    && -100_000_000_000_000_000_000_000_000 <= (ay as int) * (dt as int)
                    <= 100_000_000_000_000_000_000_000_000) by (nonlinear_arith)
                    requires
                        -1_000_000_000_000_000_000_000 <= ax as int <= 1_000_000_000_000_000_000_000,
                        -1_000_000_000_000_000_000_000 <= ay as int <= 1_000_000_000_000_000_000_000,
                        0 <= dt <= 100_000,
                {}
            }
            let vx1: i128 = world.planets[i].motion.velocity.x as i128 + ax * (dt as i128);
            let vy1: i128 = world.planets[i].motion.velocity.y as i128 + ay * (dt as i128);
            if vx1 < -VEL_MAX as i128 || vx1 > VEL_MAX as i128 || vy1 < -VEL_MAX as i128
                || vy1 > VEL_MAX as i128 {
                proof {
                    assert(!motion_in_range(step_planet(g, s, i as int, dt as int).motion));
                }
                return Err(SimError::Overflow);
            }
            proof {
                assert(-100_000_000_000_000 <= (vx1 as int) * (dt as int) <= 100_000_000_000_000
                    && -100_000_000_000_000 <= (vy1 as int) * (dt as int) <= 100_000_000_000_000)
                    by (nonlinear_arith)
                    requires
                        -1_000_000_000 <= vx1 as int <= 1_000_000_000,
                        -1_000_000_000 <= vy1 as int <= 1_000_000_000,
                        0 <= dt <= 100_000,
                {}
            }
            let px1: i128 = world.planets[i].motion.position.x as i128 + vx1 * (dt as i128);
            let py1: i128 = world.planets[i].motion.position.y as i128 + vy1 * (dt as i128);
            if px1 < -POS_MAX as i128 || px1 > POS_MAX as i128 || py1 < -POS_MAX as i128
                || py1 > POS_MAX as i128 {
                proof {
                    assert(!motion_in_range(step_planet(g, s, i as int, dt as int).motion));
                }
                return Err(SimError::Overflow);
            }
            let stepped: Motion = Motion {
                position: Vector2 { x: px1 as i64, y: py1 as i64 },
                velocity: Vector2 { x: vx1 as i64, y: vy1 as i64 },
            };
            proof {
                assert(stepped@ == step_planet(g, s, i as int, dt as int).motion);
            }
            motions.push(stepped);
            i += 1;
        }

        // Third pass: write the new motions back; names and masses stay.
        i = 0;
        while i < n
            invariant
                world.planets@.len() == n as int,
                n == s.len(),
                i <= n,
                0 <= dt <= DT_MAX,
                g == self.gravity(),
                motions@.len() == n as int,
                forall|k: int| 0 <= k < n as int ==> (#[trigger] motions@[k])@
                    == step_planet(g, s, k, dt as int).motion
                    && motion_in_range(step_planet(g, s, k, dt as int).motion),
                forall|k: int| i as int <= k < n as int ==> world.planets@[k] == old(world).planets@[k],
                forall|k: int| 0 <= k < i as int ==> #[trigger] world.planets@[k]@
                    == step_planet(g, s, k, dt as int),
                s == old(world)@,
                world_wf(s),
            decreases n - i,
        {
            let nm: String = world.planets[i].name.clone();
            let ms: i64 = world.planets[i].mass;
            let mo: Motion = motions[i];
            let replacement: Planet = Planet { name: nm, mass: ms, motion: mo };
            proof {
                assert(world.planets@[i as int]@ == s[i as int]);
                assert(replacement@ == step_planet(g, s, i as int, dt as int));
            }
            world.planets[i] = replacement;
            i += 1;
        }
        proof {
            assert(world@ =~= step_world(g, s, dt as int));
            assert forall|k: int| 0 <= k < s.len() implies motion_in_range(
                (#[trigger] step_planet(g, s, k, dt as int)).motion,
            ) by {
                assert(motions@[k]@ == step_planet(g, s, k, dt as int).motion);
            }
            assert(step_in_range(g, s, dt as int));
            assert forall|k: int| 0 <= k < world@.len() implies (#[trigger] world@[k]).wf() by {
                assert(s[k].wf());
                assert(world@[k] == step_planet(g, s, k, dt as int));
                assert(motion_in_range(step_planet(g, s, k, dt as int).motion));
            }
            assert(world_wf(world@));
        }
        Ok(())
    }

    /// Advances every body in `world` by `dt` time units. The world must be
    /// well formed, the step non-negative and bounded, and the stepped state
    /// representable; the result is exactly the stepped world of the model,
    /// with every body's name and mass unchanged.
    pub fn update(&self, dt: i64, world: &mut World)
        requires
            self.wf(),
            0 <= dt <= DT_MAX,
            world_wf(old(world)@),
            step_in_range(self.gravity(), old(world)@, dt as int),
        ensures
            final(world)@ == step_world(self.gravity(), old(world)@, dt as int),
            world_wf(final(world)@),
    {
        let r = self.try_update(dt, world);
        proof {
            assert(r is Ok);
        }
    }
}

} // verus!

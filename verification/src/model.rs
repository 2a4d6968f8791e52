//! The data the simulator works on: 2-D vectors, a body's kinematic state
//! (`Motion`), a named body with a positive mass (`Planet`), and the ordered
//! collection of bodies (`World`).
//!
//! All quantities are exact integers in fixed simulation units. The
//! representable range of each quantity is bounded by the constants below;
//! `Planet::wf` and `World::wf` say when a state lies within those bounds,
//! and the integrator preserves them.

use vstd::prelude::*;

use crate::physics::{div_trunc, div_trunc_i128};

verus! {

/// Largest admissible body mass, in mass units.
pub const MASS_MAX: i64 = 1_000_000;

/// Mass given to a body constructed without an explicit mass.
pub const DEFAULT_MASS: i64 = 1_000;

/// Largest admissible coordinate magnitude, in length units.
pub const POS_MAX: i64 = 1_000_000_000_000;

/// Largest admissible velocity component magnitude, in length units per time unit.
pub const VEL_MAX: i64 = 1_000_000_000;

/// Largest number of bodies a well-formed world may hold.
pub const MAX_BODIES: usize = 1_000;

/// The mathematical value of a `Vector2`.
#[verifier::ext_equal]
pub ghost struct Vec2Model {
    pub x: int,
    pub y: int,
}

/// The mathematical value of a `Motion`.
#[verifier::ext_equal]
pub ghost struct MotionModel {
    pub position: Vec2Model,
    pub velocity: Vec2Model,
}

/// The mathematical value of a `Planet`.
#[verifier::ext_equal]
pub ghost struct PlanetModel {
    pub name: Seq<char>,
    pub mass: int,
    pub motion: MotionModel,
}

pub open spec fn v2_zero() -> Vec2Model {
    Vec2Model { x: 0, y: 0 }
}

pub open spec fn v2_add(a: Vec2Model, b: Vec2Model) -> Vec2Model {
    Vec2Model { x: a.x + b.x, y: a.y + b.y }
}

pub open spec fn v2_sub(a: Vec2Model, b: Vec2Model) -> Vec2Model {
    Vec2Model { x: a.x - b.x, y: a.y - b.y }
}

pub open spec fn v2_scale(a: Vec2Model, k: int) -> Vec2Model {
    Vec2Model { x: a.x * k, y: a.y * k }
}

pub open spec fn v2_neg(a: Vec2Model) -> Vec2Model {
    Vec2Model { x: -a.x, y: -a.y }
}

/// Both components of `v` lie in `[-bound, bound]`.
pub open spec fn v2_in_range(v: Vec2Model, bound: int) -> bool {
    -bound <= v.x <= bound && -bound <= v.y <= bound
}

/// The kinematic state lies within the representable coordinate range.
pub open spec fn motion_in_range(m: MotionModel) -> bool {
    v2_in_range(m.position, POS_MAX as int) && v2_in_range(m.velocity, VEL_MAX as int)
}

impl PlanetModel {
    /// A body is well formed when its mass is positive and bounded and its
    /// state lies within the representable range.
    pub open spec fn wf(self) -> bool {
        1 <= self.mass <= MASS_MAX && motion_in_range(self.motion)
    }
}

/// A 2-D vector of exact integer components.
#[derive(Clone, Copy, PartialEq, Eq, Structural, Debug)]
pub struct Vector2 {
    pub x: i64,
    pub y: i64,
}

impl View for Vector2 {
    type V = Vec2Model;

    open spec fn view(&self) -> Vec2Model {
        Vec2Model { x: self.x as int, y: self.y as int }
    }
}

impl Vector2 {
    pub fn new(x: i64, y: i64) -> (v: Vector2)
        ensures
            v@ == (Vec2Model { x: x as int, y: y as int }),
    {
        Vector2 { x, y }
    }

    /// Componentwise sum.
    pub fn add(self, other: Vector2) -> (r: Vector2)
        requires
            i64::MIN <= self@.x + other@.x <= i64::MAX,
            i64::MIN <= self@.y + other@.y <= i64::MAX,
        ensures
            r@ == v2_add(self@, other@),
    {
        Vector2 { x: self.x + other.x, y: self.y + other.y }
    }

    /// Componentwise difference.
    pub fn sub(self, other: Vector2) -> (r: Vector2)
        requires
            i64::MIN <= self@.x - other@.x <= i64::MAX,
            i64::MIN <= self@.y - other@.y <= i64::MAX,
        ensures
            r@ == v2_sub(self@, other@),
    {
        Vector2 { x: self.x - other.x, y: self.y - other.y }
    }

    /// Componentwise scaling by an integer factor.
    pub fn scale(self, k: i64) -> (r: Vector2)
        requires
            i64::MIN <= self@.x * k <= i64::MAX,
            i64::MIN <= self@.y * k <= i64::MAX,
        ensures
            r@ == v2_scale(self@, k as int),
    {
        Vector2 { x: self.x * k, y: self.y * k }
    }

    /// The Euclidean length of the vector, rounded down to an integer.
    pub fn length(self) -> (r: u64)
        ensures
            r == crate::isqrt::sqrt_floor(self@.x * self@.x + self@.y * self@.y),
    {
        let x: i128 = self.x as i128;
        let y: i128 = self.y as i128;
        proof {
            assert(0 <= x * x <= 0x4000_0000_0000_0000_0000_0000_0000_0000
                && 0 <= y * y <= 0x4000_0000_0000_0000_0000_0000_0000_0000)
                by (nonlinear_arith)
                requires
                    -0x8000_0000_0000_0000 <= x <= 0x7fff_ffff_ffff_ffff,
                    -0x8000_0000_0000_0000 <= y <= 0x7fff_ffff_ffff_ffff,
            {}
        }
        let sq: u128 = (x * x) as u128 + (y * y) as u128;
        proof {
            crate::isqrt::lemma_sqrt_floor_bounds(sq as int);
            crate::isqrt::lemma_sqrt_floor_monotone(
                sq as int,
                0x1_0000_0000_0000_0000 * 0x1_0000_0000_0000_0000 - 1,
            );
            crate::isqrt::lemma_sqrt_floor_unique(
                0x1_0000_0000_0000_0000 * 0x1_0000_0000_0000_0000 - 1,
                0x1_0000_0000_0000_0000 - 1,
            );
        }
        crate::isqrt::isqrt_u128(sq) as u64
    }
}

/// The kinematic state of one body: where it is and how fast it moves.
#[derive(Clone, Copy, PartialEq, Eq, Structural, Debug)]
pub struct Motion {
    pub position: Vector2,
    pub velocity: Vector2,
}

impl View for Motion {
    type V = MotionModel;

    open spec fn view(&self) -> MotionModel {
        MotionModel { position: self.position@, velocity: self.velocity@ }
    }
}

/// One point mass taking part in the simulation. Identity is by name and is
/// used for diagnostics only; the integrator reads mass and motion.
#[derive(Clone, Debug)]
pub struct Planet {
    pub name: String,
    pub mass: i64,
    pub motion: Motion,
}

impl View for Planet {
    type V = PlanetModel;

    open spec fn view(&self) -> PlanetModel {
        PlanetModel { name: self.name@, mass: self.mass as int, motion: self.motion@ }
    }
}

/// Why a body or a step was rejected.
#[derive(Clone, Copy, PartialEq, Eq, Structural, Debug)]
pub enum SimError {
    /// A body was given a mass of zero or less.
    MassNotPositive,
    /// A body was given a mass above `MASS_MAX`.
    MassTooLarge,
    /// A universe was given a gravitational constant outside `[1, G_MAX]`.
    GravityOutOfRange,
    /// A step was asked to run time backwards.
    NegativeTime,
    /// A step was asked for more than `DT_MAX` time units at once.
    TimeStepTooLarge,
    /// The world holds a body outside the well-formed range, or too many bodies.
    InvalidWorld,
    /// The step would carry some body outside the representable range.
    Overflow,
}

impl Planet {
    /// A body at `position` with zero initial velocity and the default mass.
    pub fn new(name: String, position: (i64, i64)) -> (p: Planet)
        ensures
            p@.name == name@,
            p@.mass == DEFAULT_MASS as int,
            p@.motion.position == (Vec2Model { x: position.0 as int, y: position.1 as int }),
            p@.motion.velocity == v2_zero(),
    {
        Planet {
            name,
            mass: DEFAULT_MASS,
            motion: Motion {
                position: Vector2 { x: position.0, y: position.1 },
                velocity: Vector2 { x: 0, y: 0 },
            },
        }
    }

    /// A body with an explicit mass; a non-positive or oversized mass is rejected.
    pub fn with_mass(name: String, position: (i64, i64), mass: i64) -> (r: Result<Planet, SimError>)
        ensures
            mass <= 0 ==> r == Err::<Planet, SimError>(SimError::MassNotPositive),
            mass > MASS_MAX ==> r == Err::<Planet, SimError>(SimError::MassTooLarge),
            0 < mass <= MASS_MAX ==> (r matches Ok(p)
                && p@.name == name@
                && p@.mass == mass as int
                && p@.motion.position == (Vec2Model { x: position.0 as int, y: position.1 as int })
                && p@.motion.velocity == v2_zero()),
    {
        if mass <= 0 {
            Err(SimError::MassNotPositive)
        } else if mass > MASS_MAX {
            Err(SimError::MassTooLarge)
        } else {
            Ok(Planet {
                name,
                mass,
                motion: Motion {
                    position: Vector2 { x: position.0, y: position.1 },
                    velocity: Vector2 { x: 0, y: 0 },
                },
            })
        }
    }

    /// Replaces the mass; a non-positive or oversized mass is rejected and
    /// leaves the body unchanged.
    pub fn set_mass(&mut self, mass: i64) -> (r: Result<(), SimError>)
        ensures
            mass <= 0 ==> r == Err::<(), SimError>(SimError::MassNotPositive) && *final(self) == *old(self),
            mass > MASS_MAX ==> r == Err::<(), SimError>(SimError::MassTooLarge) && *final(self) == *old(self),
            0 < mass <= MASS_MAX ==> r == Ok::<(), SimError>(())
                && final(self)@.mass == mass as int
                && final(self)@.name == old(self)@.name
                && final(self)@.motion == old(self)@.motion,
    {
        if mass <= 0 {
            Err(SimError::MassNotPositive)
        } else if mass > MASS_MAX {
            Err(SimError::MassTooLarge)
        } else {
            self.mass = mass;
            Ok(())
        }
    }

    /// Whether the body lies within the well-formed range.
    pub fn is_well_formed(&self) -> (r: bool)
        ensures
            r == self@.wf(),
    {
        1 <= self.mass && self.mass <= MASS_MAX
            && -POS_MAX <= self.motion.position.x && self.motion.position.x <= POS_MAX
            && -POS_MAX <= self.motion.position.y && self.motion.position.y <= POS_MAX
            && -VEL_MAX <= self.motion.velocity.x && self.motion.velocity.x <= VEL_MAX
            && -VEL_MAX <= self.motion.velocity.y && self.motion.velocity.y <= VEL_MAX
    }
}

/// The ordered collection of bodies the integrator advances. Order is
/// insertion order; the physics does not depend on it.
#[derive(Clone, Debug)]
pub struct World {
    pub planets: Vec<Planet>,
}

impl View for World {
    type V = Seq<PlanetModel>;

    open spec fn view(&self) -> Seq<PlanetModel> {
        self.planets@.map_values(|p: Planet| p@)
    }
}

/// Every body is well formed and the world is not over-full.
pub open spec fn world_wf(s: Seq<PlanetModel>) -> bool {
    s.len() <= MAX_BODIES && forall|i: int| 0 <= i < s.len() ==> #[trigger] s[i].wf()
}

/// The positions of bodies `0` to `k - 1`, summed.
pub open spec fn positions_sum_upto(s: Seq<PlanetModel>, k: int) -> Vec2Model
    decreases k,
{
    if k <= 0 {
        v2_zero()
    } else {
        v2_add(positions_sum_upto(s, k - 1), s[k - 1].motion.position)
    }
}

/// The geometric centre of a non-empty world: the mean position of its
/// bodies, each component rounded toward zero.
pub open spec fn geo_center_of(s: Seq<PlanetModel>) -> Vec2Model {
    let total: Vec2Model = positions_sum_upto(s, s.len() as int);
    Vec2Model {
        x: div_trunc(total.x, s.len() as int),
        y: div_trunc(total.y, s.len() as int),
    }
}

impl World {
    /// A world with no bodies.
    pub fn new() -> (w: World)
        ensures
            w@.len() == 0,
    {
        World { planets: Vec::new() }
    }

    /// The well-formedness of the whole world, checked body by body.
    pub fn is_well_formed(&self) -> (r: bool)
        ensures
            r == world_wf(self@),
    {
        if self.planets.len() > MAX_BODIES {
            proof {
                assert(self@.len() == self.planets@.len());
            }
            return false;
        }
        let n: usize = self.planets.len();
        let mut i: usize = 0;
        while i < n
            invariant
                0 <= i <= n,
                n == self@.len(),
                n <= MAX_BODIES,
                forall|k: int| 0 <= k < i ==> #[trigger] self@[k].wf(),
            decreases n - i,
        {
            if !self.planets[i].is_well_formed() {
                proof {
                    assert(!self@[i as int].wf());
                }
                return false;
            }
            i = i + 1;
        }
        true
    }

    /// The mean position of the bodies, a marker a renderer can draw.
    pub fn geo_center(&self) -> (c: Vector2)
        requires
            self@.len() >= 1,
            world_wf(self@),
        ensures
            c@ == geo_center_of(self@),
    {
        let n: usize = self.planets.len();
        let mut sx: i128 = 0;
        let mut sy: i128 = 0;
        let mut i: usize = 0;
        while i < n
            invariant
                n == self@.len(),
                1 <= n <= MAX_BODIES,
                world_wf(self@),
                i <= n,
                sx == positions_sum_upto(self@, i as int).x,
                sy == positions_sum_upto(self@, i as int).y,
                -(i as int) * (POS_MAX as int) <= sx <= (i as int) * (POS_MAX as int),
                -(i as int) * (POS_MAX as int) <= sy <= (i as int) * (POS_MAX as int),
            decreases n - i,
        {
            proof {
                assert(self@[i as int].wf());
            }
            sx = sx + self.planets[i].motion.position.x as i128;
            sy = sy + self.planets[i].motion.position.y as i128;
            i = i + 1;
        }
        let cx: i128 = div_trunc_i128(sx, n as i64);
        let cy: i128 = div_trunc_i128(sy, n as i64);
        Vector2 { x: cx as i64, y: cy as i64 }
    }
}

} // verus!

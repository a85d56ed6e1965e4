use vstd::prelude::*;

verus! {

/// Largest magnitude a position or velocity component may take: 2^40 in
/// `1 / UNIT` of a simulation unit, 2^24 units. Every intermediate value of a
/// tick then fits in `i128`.
pub const COORD_LIMIT: i64 = 1_099_511_627_776;

/// Fixed-point subdivisions of one simulation unit of length: positions,
/// velocities, radii and bounds are all counted in these.
pub const UNIT: i64 = 65_536;

/// Largest number of bodies a simulation holds.
pub const MAX_BODIES: usize = 1_048_576;

/// A vector in the simulation plane, in `1 / UNIT` of a simulation unit.
#[derive(Clone, Copy, Debug, PartialEq, Eq, Structural)]
pub struct Vec2 {
    pub x: i64,
    pub y: i64,
}

impl Vec2 {
    /// The vector `(x, y)`.
    pub fn new(x: i64, y: i64) -> (r: Vec2)
        ensures
            r.x == x,
            r.y == y,
    {
        Vec2 { x, y }
    }

    /// Both components lie within `COORD_LIMIT` of zero.
    pub open spec fn in_range(self) -> bool {
        coord_ok(self.x as int) && coord_ok(self.y as int)
    }
}

/// A coordinate value that a body may hold.
pub open spec fn coord_ok(v: int) -> bool {
    -COORD_LIMIT <= v <= COORD_LIMIT
}

/// The state of one massive body.
///
/// `mass` is in the simulation's mass unit; `position` and `radius` are in
/// `1 / UNIT` of a simulation unit, `velocity` in the same per tick.
#[derive(Clone, Copy, Debug, PartialEq, Eq, Structural)]
pub struct Body {
    pub position: Vec2,
    pub velocity: Vec2,
    pub mass: u32,
    pub radius: u32,
    /// An anchored body keeps its position; gravity still changes its velocity.
    pub is_anchor: bool,
}

impl Body {
    /// A body with the given state.
    pub fn new(position: Vec2, velocity: Vec2, mass: u32, radius: u32, is_anchor: bool) -> (r: Body)
        ensures
            r == (Body { position, velocity, mass, radius, is_anchor }),
    {
        Body { position, velocity, mass, radius, is_anchor }
    }

    /// Mass and radius are positive, position and velocity in range.
    pub open spec fn wf(self) -> bool {
        &&& self.mass > 0
        &&& self.radius > 0
        &&& self.position.in_range()
        &&& self.velocity.in_range()
    }

    /// Whether `wf` holds.
    pub fn is_valid(&self) -> (r: bool)
        ensures
            r == self.wf(),
    {
        self.mass > 0 && self.radius > 0 && -COORD_LIMIT <= self.position.x && self.position.x
            <= COORD_LIMIT && -COORD_LIMIT <= self.position.y && self.position.y <= COORD_LIMIT
            && -COORD_LIMIT <= self.velocity.x && self.velocity.x <= COORD_LIMIT && -COORD_LIMIT
            <= self.velocity.y && self.velocity.y <= COORD_LIMIT
    }
}

/// Every body of `s` is well formed, and there are at most `MAX_BODIES`.
pub open spec fn all_wf(s: Seq<Body>) -> bool {
    &&& s.len() <= MAX_BODIES
    &&& forall|i: int| 0 <= i < s.len() ==> (#[trigger] s[i]).wf()
}

/// Tunable constants of the force law.
///
/// The gravitational constant is the fraction `g_num / g_den`, already scaled
/// for simulation units and for one tick: the acceleration it gives is added to
/// the velocity as it is, with no separate time step.
#[derive(Clone, Copy, Debug, PartialEq, Eq, Structural)]
pub struct Config {
    pub g_num: u32,
    pub g_den: u64,
    /// Softening length; its square is added to every squared distance.
    pub eps: u32,
}

impl Config {
    /// The denominator and the softening length are positive.
    pub open spec fn wf(self) -> bool {
        self.g_den > 0 && self.eps > 0
    }

    /// A configuration, or `InvalidConfig` where `g_den` or `eps` is zero.
    pub fn new(g_num: u32, g_den: u64, eps: u32) -> (r: Result<Config, SimError>)
        ensures
            r matches Ok(c) ==> c == (Config { g_num, g_den, eps }) && c.wf(),
            r is Err <==> (g_den == 0 || eps == 0),
            r matches Err(e) ==> e == SimError::InvalidConfig,
    {
        if g_den == 0 || eps == 0 {
            Err(SimError::InvalidConfig)
        } else {
            Ok(Config { g_num, g_den, eps })
        }
    }
}

/// A rectangle centred at the origin, given by its half extents.
#[derive(Clone, Copy, Debug, PartialEq, Eq, Structural)]
pub struct Bounds {
    pub half_width: u32,
    pub half_height: u32,
}

impl Bounds {
    /// The rectangle with the given half extents.
    pub fn new(half_width: u32, half_height: u32) -> (r: Bounds)
        ensures
            r.half_width == half_width,
            r.half_height == half_height,
    {
        Bounds { half_width, half_height }
    }
}

/// Why an operation of the simulation was refused.
#[derive(Clone, Copy, Debug, PartialEq, Eq, Structural)]
pub enum SimError {
    /// The denominator of G or the softening length is zero.
    InvalidConfig,
    /// A body with zero mass or radius, or a component out of range.
    InvalidBody,
    /// The simulation already holds `MAX_BODIES` bodies.
    TooManyBodies,
    /// A tick would move a position or velocity out of range.
    OutOfRange,
}

} // verus!

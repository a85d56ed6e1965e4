use vstd::prelude::*;

use crate::body::{all_wf, coord_ok, Body, Bounds, Config, SimError, Vec2, MAX_BODIES, UNIT};
use crate::gravity::{
    after_gravity, gravity_between_bodies, gravity_fits, momentum_x, momentum_y, two_body_momentum,
};
use crate::motion::{
    after_bounce, after_motion, apply_velocity, bounce_on_window_edges, motion_fits, move_fits,
};

verus! {

/// Metres of the physical world per simulation unit of length (10 000 km).
pub const SCALE_DOWN: u64 = 10_000_000;

/// Kilograms per simulation unit of mass (10^21 kg).
pub const MASS_UNIT: u128 = 1_000_000_000_000_000_000_000;

/// Distance along x between consecutive bodies of a catalog: 32 simulation
/// units, in `1 / UNIT` of a unit.
pub const SPACING: i64 = 2_097_152;

/// The last place in a catalog whose position, `place * SPACING`, stays
/// within `COORD_LIMIT`.
pub const MAX_PLACE: u64 = 524_288;

/// The numerator of the default gravitational constant.
pub const G_NUM: u32 = 1_878_648_437;

/// The denominator of the default gravitational constant. `G_NUM / G_DEN` is
/// 6.6743e-7 (simulation units)³ per tick² per mass unit, times `UNIT³` for
/// lengths counted in `1 / UNIT`.
pub const G_DEN: u64 = 10;

/// The default softening length: one simulation unit.
pub const EPS: u32 = 65_536;

/// One entry of a catalog of bodies, in physical units.
#[derive(Clone, Copy, Debug, PartialEq, Eq)]
pub struct PlanetData {
    pub name: &'static str,
    /// Radius in metres.
    pub radius: u64,
    /// Mass in kilograms.
    pub mass: u128,
    /// Display colour as 8-bit sRGB.
    pub color: (u8, u8, u8),
    pub is_anchor: bool,
}

/// `a / b`, rounded up.
pub open spec fn ceil_div(a: int, b: int) -> int {
    if a % b == 0 {
        a / b
    } else {
        a / b + 1
    }
}

/// The mass of `p` in mass units, rounded up.
pub open spec fn scaled_mass(p: PlanetData) -> int {
    ceil_div(p.mass as int, MASS_UNIT as int)
}

/// The radius of `p` in `1 / UNIT` of a simulation unit, rounded up.
pub open spec fn scaled_radius(p: PlanetData) -> int {
    ceil_div(p.radius * UNIT, SCALE_DOWN as int)
}

/// The body that the catalog entry `p` at place `index` starts as: scaled
/// radius and mass, on the x axis `index * SPACING` from the origin, with
/// velocity one simulation unit per tick along each axis.
pub open spec fn body_of(p: PlanetData, index: int) -> Body {
    Body {
        position: Vec2 { x: (index * SPACING) as i64, y: 0 },
        velocity: Vec2 { x: UNIT as i64, y: UNIT as i64 },
        mass: scaled_mass(p) as u32,
        radius: scaled_radius(p) as u32,
        is_anchor: p.is_anchor,
    }
}

/// The entry `p` has positive mass and radius, and at place `index` it
/// scales to values that fit the body's fields and range.
pub open spec fn planet_ok(p: PlanetData, index: int) -> bool {
    &&& p.mass > 0
    &&& p.radius > 0
    &&& scaled_mass(p) <= u32::MAX
    &&& scaled_radius(p) <= u32::MAX
    &&& coord_ok(index * SPACING)
}

impl PlanetData {
    /// The body this entry starts as at place `index` of a catalog, or
    /// `InvalidBody` where its mass or radius is zero, its scaled mass or
    /// radius does not fit in `u32`, or `index` is too far out.
    pub fn to_body(&self, index: usize) -> (r: Result<Body, SimError>)
        ensures
            r is Ok <==> planet_ok(*self, index as int),
            r matches Ok(b) ==> b == body_of(*self, index as int) && b.wf(),
            r matches Err(e) ==> e == SimError::InvalidBody,
    {
        if self.mass == 0 || self.radius == 0 {
            return Err(SimError::InvalidBody);
        }
        let mut mass = self.mass / MASS_UNIT;
        if self.mass % MASS_UNIT != 0 {
            mass = mass + 1;
        }
        assert(self.radius * UNIT <= 0xffff_ffff_ffff_ffff * 0x1_0000) by (nonlinear_arith)
            requires
                self.radius <= 0xffff_ffff_ffff_ffff,
                UNIT == 0x1_0000,
        ;
        let fine = self.radius as u128 * UNIT as u128;
        let mut radius = fine / SCALE_DOWN as u128;
        if fine % SCALE_DOWN as u128 != 0 {
            radius = radius + 1;
        }
        if mass > u32::MAX as u128 || radius > u32::MAX as u128 {
            return Err(SimError::InvalidBody);
        }
        assert(mass >= 1 && radius >= 1);
        if index as u64 > MAX_PLACE {
            assert(!coord_ok(index * SPACING));
            return Err(SimError::InvalidBody);
        }
        let x = index as i64 * SPACING;
        Ok(
            Body {
                position: Vec2 { x, y: 0 },
                velocity: Vec2 { x: UNIT, y: UNIT },
                mass: mass as u32,
                radius: radius as u32,
                is_anchor: self.is_anchor,
            },
        )
    }
}

/// The catalog of the demo: the Sun, which anchors the system, and Jupiter.
pub fn solar_system_data() -> (r: Vec<PlanetData>)
    ensures
        r@.len() == 2,
        r@[0] == (PlanetData {
            name: "Sun",
            radius: 696_340_000,
            mass: 1_988_500_000_000_000_000_000_000_000_000,
            color: (255, 217, 77),
            is_anchor: true,
        }),
        r@[1] == (PlanetData {
            name: "Jupiter",
            radius: 69_911_000,
            mass: 1_898_200_000_000_000_000_000_000_000,
            color: (204, 179, 128),
            is_anchor: false,
        }),
{
    vec![
        PlanetData {
            name: "Sun",
            radius: 696_340_000,
            mass: 1_988_500_000_000_000_000_000_000_000_000,
            color: (255, 217, 77),
            is_anchor: true,
        },
        PlanetData {
            name: "Jupiter",
            radius: 69_911_000,
            mass: 1_898_200_000_000_000_000_000_000_000,
            color: (204, 179, 128),
            is_anchor: false,
        },
    ]
}

/// The state after one tick: gravity, then one Euler step, then the reflector
/// where there are bounds.
pub open spec fn after_tick(c: Config, s: Seq<Body>, bounds: Option<Bounds>) -> Seq<Body> {
    let moved = after_motion(after_gravity(c, s));
    match bounds {
        Some(bd) => after_bounce(moved, bd),
        None => moved,
    }
}

/// A tick from `s` keeps every position and velocity in range.
pub open spec fn tick_fits(c: Config, s: Seq<Body>) -> bool {
    gravity_fits(c, s) && motion_fits(after_gravity(c, s))
}

/// A set of bodies with their labels, and the constants of the force law.
pub struct SolarSystem {
    labels: Vec<String>,
    bodies: Vec<Body>,
    config: Config,
}

impl SolarSystem {
    /// The bodies, in the order they were added.
    pub closed spec fn bodies_view(&self) -> Seq<Body> {
        self.bodies@
    }

    /// The labels of the bodies, in the same order.
    pub closed spec fn labels_view(&self) -> Seq<Seq<char>> {
        self.labels@.map_values(|l: String| l@)
    }

    /// The constants of the force law.
    pub closed spec fn config_view(&self) -> Config {
        self.config
    }

    /// One label per body, every body valid, the configuration valid.
    pub closed spec fn wf(&self) -> bool {
        &&& self.labels@.len() == self.bodies@.len()
        &&& all_wf(self.bodies@)
        &&& self.config.wf()
    }

    /// An empty system under `config`.
    pub fn new(config: Config) -> (r: SolarSystem)
        requires
            config.wf(),
        ensures
            r.wf(),
            r.bodies_view() == Seq::<Body>::empty(),
            r.labels_view() == Seq::<Seq<char>>::empty(),
            r.config_view() == config,
    {
        let r = SolarSystem { labels: Vec::new(), bodies: Vec::new(), config };
        assert(r.labels_view() =~= Seq::<Seq<char>>::empty());
        r
    }

    /// Adds a body under `label` and returns its index; fails with
    /// `InvalidBody` where the body is not valid, else with `TooManyBodies`
    /// where the system is full, and then changes nothing.
    pub fn add_body(&mut self, label: String, body: Body) -> (r: Result<usize, SimError>)
        requires
            old(self).wf(),
        ensures
            final(self).wf(),
            final(self).config_view() == old(self).config_view(),
            r is Ok <==> body.wf() && old(self).bodies_view().len() < MAX_BODIES,
            r matches Ok(i) ==> i == old(self).bodies_view().len() && final(self).bodies_view()
                == old(self).bodies_view().push(body) && final(self).labels_view()
                == old(self).labels_view().push(label@),
            r is Err ==> final(self).bodies_view() == old(self).bodies_view()
                && final(self).labels_view() == old(self).labels_view(),
            r matches Err(e) ==> (e == SimError::InvalidBody <==> !body.wf()),
            r matches Err(e) ==> (e == SimError::TooManyBodies <==> body.wf()),
    {
        if !body.is_valid() {
            return Err(SimError::InvalidBody);
        }
        if self.bodies.len() >= MAX_BODIES {
            return Err(SimError::TooManyBodies);
        }
        let i = self.bodies.len();
        let ghost old_labels = self.labels@;
        self.labels.push(label);
        self.bodies.push(body);
        assert(self.labels@.map_values(|l: String| l@) =~= old_labels.map_values(|l: String| l@).push(
            label@,
        ));
        Ok(i)
    }

    /// A system under `config` that holds the entries of `catalog` in order,
    /// each at its place as `PlanetData::to_body` gives it; or `InvalidBody`
    /// where an entry does not scale to a valid body.
    pub fn from_catalog(catalog: &Vec<PlanetData>, config: Config) -> (r: Result<
        SolarSystem,
        SimError,
    >)
        requires
            config.wf(),
            catalog@.len() <= MAX_BODIES,
        ensures
            r is Ok <==> forall|i: int| 0 <= i < catalog@.len() ==> planet_ok(#[trigger] catalog@[i], i),
            r matches Ok(sys) ==> sys.wf() && sys.config_view() == config
                && sys.bodies_view().len() == catalog@.len() && (forall|i: int|
                0 <= i < catalog@.len() ==> #[trigger] sys.bodies_view()[i] == body_of(catalog@[i], i)
                    && sys.labels_view()[i] == catalog@[i].name@),
            r matches Err(e) ==> e == SimError::InvalidBody,
    {
        let mut sys = SolarSystem::new(config);
        let mut k: usize = 0;
        while k < catalog.len()
            invariant
                k <= catalog@.len() <= MAX_BODIES,
                sys.wf(),
                sys.config_view() == config,
                sys.bodies_view().len() == k,
                forall|i: int| 0 <= i < k ==> planet_ok(#[trigger] catalog@[i], i),
                forall|i: int|
                    0 <= i < k ==> #[trigger] sys.bodies_view()[i] == body_of(catalog@[i], i)
                        && sys.labels_view()[i] == catalog@[i].name@,
            decreases catalog@.len() - k,
        {
            let p = &catalog[k];
            let body = match p.to_body(k) {
                Ok(b) => b,
                Err(e) => {
                    return Err(e);
                },
            };
            let label = p.name.to_string();
            assert(label@ == p.name@);
            let ghost before = sys.labels_view();
            let added = sys.add_body(label, body);
            assert(added is Ok);
            assert(sys.labels_view()[k as int] == p.name@);
            assert(forall|i: int| 0 <= i < k ==> sys.labels_view()[i] == before[i]);
            k = k + 1;
        }
        Ok(sys)
    }

    /// The bodies, in the order they were added.
    pub fn bodies(&self) -> (r: &Vec<Body>)
        ensures
            r@ == self.bodies_view(),
    {
        &self.bodies
    }

    /// The labels of the bodies, in the same order.
    pub fn labels(&self) -> (r: &Vec<String>)
        ensures
            r@.map_values(|l: String| l@) == self.labels_view(),
    {
        &self.labels
    }

    /// The constants of the force law.
    pub fn config(&self) -> (r: Config)
        ensures
            r == self.config_view(),
    {
        self.config
    }

    /// Runs one tick: the gravity solver over every pair, then the
    /// integrator, then, where `bounds` is given, the reflector.
    ///
    /// Fails with `OutOfRange`, leaving the system as it was, exactly when a
    /// velocity or a position would leave the range on the way.
    pub fn tick(&mut self, bounds: Option<Bounds>) -> (r: Result<(), SimError>)
        requires
            old(self).wf(),
        ensures
            final(self).wf(),
            final(self).config_view() == old(self).config_view(),
            final(self).labels_view() == old(self).labels_view(),
            r is Ok <==> tick_fits(old(self).config_view(), old(self).bodies_view()),
            r is Ok ==> final(self).bodies_view() == after_tick(
                old(self).config_view(),
                old(self).bodies_view(),
                bounds,
            ),
            r is Err ==> final(self).bodies_view() == old(self).bodies_view() && r == Err::<
                (),
                SimError,
            >(SimError::OutOfRange),
    {
        let mut work = copy_bodies(&self.bodies);
        let g = gravity_between_bodies(&self.config, &mut work);
        if g.is_err() {
            return Err(SimError::OutOfRange);
        }
        proof {
            lemma_after_gravity_wf(self.config, self.bodies@);
        }
        let m = apply_velocity(&mut work);
        if m.is_err() {
            return Err(SimError::OutOfRange);
        }
        match bounds {
            Some(bd) => bounce_on_window_edges(&mut work, bd),
            None => {},
        }
        self.bodies = work;
        Ok(())
    }
}

/// The state after `n` ticks from `s`.
pub open spec fn after_ticks(c: Config, s: Seq<Body>, bounds: Option<Bounds>, n: nat) -> Seq<Body>
    decreases n,
{
    if n == 0 {
        s
    } else {
        after_tick(c, after_ticks(c, s, bounds, (n - 1) as nat), bounds)
    }
}

/// An anchored body keeps its position over any number of ticks, whatever
/// velocity it gathers.
pub proof fn anchor_stays(c: Config, s: Seq<Body>, bounds: Option<Bounds>, n: nat, k: int)
    requires
        0 <= k < s.len(),
        s[k].is_anchor,
    ensures
        after_ticks(c, s, bounds, n).len() == s.len(),
        after_ticks(c, s, bounds, n)[k].is_anchor,
        after_ticks(c, s, bounds, n)[k].position == s[k].position,
    decreases n,
{
    if n > 0 {
        anchor_stays(c, s, bounds, (n - 1) as nat, k);
        let t = after_ticks(c, s, bounds, (n - 1) as nat);
        let g = after_gravity(c, t);
        assert(g[k].position == t[k].position && g[k].is_anchor);
        let m = after_motion(g);
        assert(m[k] == g[k]);
    }
}

/// In a closed system of two bodies without bounds, one tick changes the total
/// momentum along each axis by less than the sum of the two masses.
pub proof fn two_body_tick_momentum(c: Config, s: Seq<Body>)
    requires
        c.wf(),
        all_wf(s),
        s.len() == 2,
        tick_fits(c, s),
    ensures
        -(s[0].mass + s[1].mass) < momentum_x(after_tick(c, s, None)) - momentum_x(s) < s[0].mass
            + s[1].mass,
        -(s[0].mass + s[1].mass) < momentum_y(after_tick(c, s, None)) - momentum_y(s) < s[0].mass
            + s[1].mass,
{
    two_body_momentum(c, s);
    let g = after_gravity(c, s);
    let t = after_tick(c, s, None);
    assert(t == after_motion(g));
    assert(t[0].velocity == g[0].velocity && t[0].mass == g[0].mass);
    assert(t[1].velocity == g[1].velocity && t[1].mass == g[1].mass);
    assert(t.drop_last().drop_last().len() == 0 && g.drop_last().drop_last().len() == 0);
    assert(t.drop_last().last() == t[0] && g.drop_last().last() == g[0]);
    assert(momentum_x(t.drop_last().drop_last()) == 0 && momentum_x(g.drop_last().drop_last())
        == 0);
    assert(momentum_y(t.drop_last().drop_last()) == 0 && momentum_y(g.drop_last().drop_last())
        == 0);
    assert(momentum_x(t.drop_last()) == momentum_x(g.drop_last()));
    assert(momentum_y(t.drop_last()) == momentum_y(g.drop_last()));
    assert(momentum_x(t) == momentum_x(g));
    assert(momentum_y(t) == momentum_y(g));
}

proof fn lemma_after_motion_wf(s: Seq<Body>)
    requires
        all_wf(s),
        motion_fits(s),
    ensures
        all_wf(after_motion(s)),
{
    let t = after_motion(s);
    assert forall|k: int| 0 <= k < t.len() implies (#[trigger] t[k]).wf() by {
        assert(s[k].wf() && move_fits(s[k]));
    }
}

/// Over `n` ticks of a closed system of two bodies without bounds, the total
/// momentum along each axis drifts by at most `n` times the sum of the two
/// masses: rounding that grows at most linearly, with no systematic term.
pub proof fn two_body_momentum_over_ticks(c: Config, s: Seq<Body>, n: nat)
    requires
        c.wf(),
        all_wf(s),
        s.len() == 2,
        forall|i: nat| i < n ==> tick_fits(c, #[trigger] after_ticks(c, s, None, i)),
    ensures
        all_wf(after_ticks(c, s, None, n)),
        after_ticks(c, s, None, n).len() == 2,
        after_ticks(c, s, None, n)[0].mass == s[0].mass,
        after_ticks(c, s, None, n)[1].mass == s[1].mass,
        -(n * (s[0].mass + s[1].mass)) <= momentum_x(after_ticks(c, s, None, n)) - momentum_x(s)
            <= n * (s[0].mass + s[1].mass),
        -(n * (s[0].mass + s[1].mass)) <= momentum_y(after_ticks(c, s, None, n)) - momentum_y(s)
            <= n * (s[0].mass + s[1].mass),
    decreases n,
{
    if n > 0 {
        let k = (n - 1) as nat;
        two_body_momentum_over_ticks(c, s, k);
        let t = after_ticks(c, s, None, k);
        assert(tick_fits(c, t));
        two_body_tick_momentum(c, t);
        lemma_after_gravity_wf(c, t);
        lemma_after_motion_wf(after_gravity(c, t));
        let u = after_ticks(c, s, None, n);
        assert(u == after_tick(c, t, None));
        assert(u[0].mass == t[0].mass && u[1].mass == t[1].mass);
        let w = s[0].mass + s[1].mass;
        assert(n * w == k * w + w) by (nonlinear_arith)
            requires
                n == k + 1,
        ;
    }
}

proof fn lemma_after_gravity_wf(c: Config, s: Seq<Body>)
    requires
        c.wf(),
        all_wf(s),
        gravity_fits(c, s),
    ensures
        all_wf(after_gravity(c, s)),
{
    let t = after_gravity(c, s);
    assert forall|k: int| 0 <= k < t.len() implies (#[trigger] t[k]).wf() by {
        assert(s[k].wf());
    }
}

/// A copy of `v`.
fn copy_bodies(v: &Vec<Body>) -> (r: Vec<Body>)
    ensures
        r@ == v@,
{
    let mut r: Vec<Body> = Vec::new();
    let mut k: usize = 0;
    while k < v.len()
        invariant
            k <= v@.len(),
            r@ == v@.subrange(0, k as int),
        decreases v@.len() - k,
    {
        r.push(v[k]);
        k = k + 1;
        assert(r@ =~= v@.subrange(0, k as int));
    }
    assert(v@.subrange(0, v@.len() as int) =~= v@);
    r
}

} // verus!

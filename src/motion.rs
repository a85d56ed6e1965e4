use vstd::prelude::*;

use crate::body::{all_wf, coord_ok, Body, Bounds, SimError, Vec2, COORD_LIMIT};

verus! {

/// `b` after one Euler step: an anchor stays put, any other body moves by its velocity.
pub open spec fn moved(b: Body) -> Body {
    if b.is_anchor {
        b
    } else {
        Body {
            position: Vec2 {
                x: (b.position.x + b.velocity.x) as i64,
                y: (b.position.y + b.velocity.y) as i64,
            },
            velocity: b.velocity,
            mass: b.mass,
            radius: b.radius,
            is_anchor: b.is_anchor,
        }
    }
}

/// `b` moves without leaving the range.
pub open spec fn move_fits(b: Body) -> bool {
    !b.is_anchor ==> coord_ok(b.position.x + b.velocity.x) && coord_ok(
        b.position.y + b.velocity.y,
    )
}

/// Every body of `s` moves without leaving the range.
pub open spec fn motion_fits(s: Seq<Body>) -> bool {
    forall|k: int| 0 <= k < s.len() ==> move_fits(#[trigger] s[k])
}

/// The bodies of `s` after one step of the integrator.
pub open spec fn after_motion(s: Seq<Body>) -> Seq<Body> {
    Seq::new(s.len(), |k: int| moved(s[k]))
}

/// Advances every body that is not an anchor by its velocity.
///
/// Fails with `OutOfRange`, leaving the bodies as they were, exactly when a
/// resulting position component would leave the range.
pub fn apply_velocity(bodies: &mut Vec<Body>) -> (r: Result<(), SimError>)
    requires
        all_wf(old(bodies)@),
    ensures
        r is Ok <==> motion_fits(old(bodies)@),
        r is Ok ==> final(bodies)@ == after_motion(old(bodies)@) && all_wf(final(bodies)@),
        r is Err ==> final(bodies)@ == old(bodies)@ && r == Err::<(), SimError>(
            SimError::OutOfRange,
        ),
{
    let ghost s = bodies@;
    let n = bodies.len();
    let mut k: usize = 0;
    while k < n
        invariant
            all_wf(s),
            bodies@ == s,
            k <= n == s.len(),
            forall|m: int| 0 <= m < k ==> move_fits(#[trigger] s[m]),
        decreases n - k,
    {
        let b = bodies[k];
        assert(s[k as int].wf());
        if !b.is_anchor {
            let x = b.position.x + b.velocity.x;
            let y = b.position.y + b.velocity.y;
            if x < -COORD_LIMIT || x > COORD_LIMIT || y < -COORD_LIMIT || y > COORD_LIMIT {
                assert(!move_fits(s[k as int]));
                return Err(SimError::OutOfRange);
            }
        }
        k = k + 1;
    }
    let mut k: usize = 0;
    while k < n
        invariant
            all_wf(s),
            motion_fits(s),
            bodies@.len() == n == s.len(),
            k <= n,
            forall|m: int| 0 <= m < k ==> bodies@[m] == moved(s[m]),
            forall|m: int| k <= m < n ==> bodies@[m] == s[m],
        decreases n - k,
    {
        let b = bodies[k];
        assert(s[k as int].wf() && move_fits(s[k as int]));
        if !b.is_anchor {
            let p = Vec2 { x: b.position.x + b.velocity.x, y: b.position.y + b.velocity.y };
            bodies.set(
                k,
                Body {
                    position: p,
                    velocity: b.velocity,
                    mass: b.mass,
                    radius: b.radius,
                    is_anchor: b.is_anchor,
                },
            );
        }
        k = k + 1;
    }
    assert(bodies@ =~= after_motion(s));
    assert forall|m: int| 0 <= m < n implies (#[trigger] bodies@[m]).wf() by {
        assert(s[m].wf() && move_fits(s[m]));
    }
    Ok(())
}

/// Reflection along one axis of a body at `p` with velocity `v` and radius
/// `r`, between the edges `-h` and `h`, as `(position, velocity)`.
///
/// Both edges are tested against the position before correction; each edge
/// crossed sets the position against that edge and negates the velocity.
pub open spec fn reflect_axis(p: int, v: int, r: int, h: int) -> (int, int) {
    let (p1, v1) = if p - r < -h {
        (-h + r, -v)
    } else {
        (p, v)
    };
    if p + r > h {
        (h - r, -v1)
    } else {
        (p1, v1)
    }
}

/// `b` after the reflector: an anchor is left alone, any other body is
/// reflected on each axis independently.
pub open spec fn bounced(b: Body, bd: Bounds) -> Body {
    if b.is_anchor {
        b
    } else {
        let (px, vx) = reflect_axis(
            b.position.x as int,
            b.velocity.x as int,
            b.radius as int,
            bd.half_width as int,
        );
        let (py, vy) = reflect_axis(
            b.position.y as int,
            b.velocity.y as int,
            b.radius as int,
            bd.half_height as int,
        );
        Body {
            position: Vec2 { x: px as i64, y: py as i64 },
            velocity: Vec2 { x: vx as i64, y: vy as i64 },
            mass: b.mass,
            radius: b.radius,
            is_anchor: b.is_anchor,
        }
    }
}

/// The bodies of `s` after the reflector.
pub open spec fn after_bounce(s: Seq<Body>, bd: Bounds) -> Seq<Body> {
    Seq::new(s.len(), |k: int| bounced(s[k], bd))
}

/// `reflect_axis` on concrete values.
fn reflect_axis_exec(p: i64, v: i64, r: u32, h: u32) -> (out: (i64, i64))
    requires
        coord_ok(p as int),
        coord_ok(v as int),
    ensures
        out.0 == reflect_axis(p as int, v as int, r as int, h as int).0,
        out.1 == reflect_axis(p as int, v as int, r as int, h as int).1,
        coord_ok(out.0 as int),
        coord_ok(out.1 as int),
{
    let r = r as i64;
    let h = h as i64;
    let mut np = p;
    let mut nv = v;
    if p - r < -h {
        np = -h + r;
        nv = -nv;
    }
    if p + r > h {
        np = h - r;
        nv = -nv;
    }
    (np, nv)
}

/// Pushes every body that is not an anchor back inside `bounds`, negating
/// the velocity component of each edge it crossed.
pub fn bounce_on_window_edges(bodies: &mut Vec<Body>, bounds: Bounds)
    requires
        all_wf(old(bodies)@),
    ensures
        final(bodies)@ == after_bounce(old(bodies)@, bounds),
        all_wf(final(bodies)@),
{
    let ghost s = bodies@;
    let n = bodies.len();
    let mut k: usize = 0;
    while k < n
        invariant
            all_wf(s),
            bodies@.len() == n == s.len(),
            k <= n,
            forall|m: int| 0 <= m < k ==> bodies@[m] == bounced(s[m], bounds),
            forall|m: int| 0 <= m < k ==> (#[trigger] bodies@[m]).wf(),
            forall|m: int| k <= m < n ==> bodies@[m] == s[m],
        decreases n - k,
    {
        let b = bodies[k];
        assert(s[k as int].wf());
        if !b.is_anchor {
            let (px, vx) = reflect_axis_exec(
                b.position.x,
                b.velocity.x,
                b.radius,
                bounds.half_width,
            );
            let (py, vy) = reflect_axis_exec(
                b.position.y,
                b.velocity.y,
                b.radius,
                bounds.half_height,
            );
            bodies.set(
                k,
                Body {
                    position: Vec2 { x: px, y: py },
                    velocity: Vec2 { x: vx, y: vy },
                    mass: b.mass,
                    radius: b.radius,
                    is_anchor: b.is_anchor,
                },
            );
        }
        k = k + 1;
    }
    assert(bodies@ =~= after_bounce(s, bounds));
}

/// Absolute value.
pub open spec fn abs(v: int) -> int {
    if v < 0 {
        -v
    } else {
        v
    }
}

/// After the reflector, a body that is not an anchor and that fits inside the
/// bounds lies entirely inside them, whatever its position and velocity before.
pub proof fn bounce_contains(b: Body, bd: Bounds)
    requires
        b.wf(),
        !b.is_anchor,
        b.radius <= bd.half_width,
        b.radius <= bd.half_height,
    ensures
        abs(bounced(b, bd).position.x as int) + b.radius <= bd.half_width,
        abs(bounced(b, bd).position.y as int) + b.radius <= bd.half_height,
{
}

/// A body (not an anchor, fitting inside the bounds) whose left edge lies
/// beyond the left boundary and that stays within the boundary vertically is
/// set against the left edge with `velocity.x` negated and `velocity.y` kept.
pub proof fn bounce_flips_left(b: Body, bd: Bounds)
    requires
        b.wf(),
        !b.is_anchor,
        b.radius <= bd.half_width,
        b.position.x - b.radius < -bd.half_width,
        -bd.half_height <= b.position.y - b.radius,
        b.position.y + b.radius <= bd.half_height,
    ensures
        bounced(b, bd).position.x == -bd.half_width + b.radius,
        bounced(b, bd).velocity.x == -b.velocity.x,
        bounced(b, bd).velocity.y == b.velocity.y,
        bounced(b, bd).position.y == b.position.y,
{
}

} // verus!

use vstd::prelude::*;
use vstd::arithmetic::div_mod::lemma_div_denominator;
use vstd::arithmetic::div_mod::lemma_fundamental_div_mod;

use crate::body::{all_wf, coord_ok, Body, Config, SimError, Vec2, COORD_LIMIT, MAX_BODIES};

verus! {

/// Bound on one component of one pairwise acceleration (2^105).
pub open spec fn pull_bound() -> int {
    0x200_0000_0000_0000_0000_0000_0000
}

/// The integer square root of `x`, rounded down.
pub open spec fn isqrt(x: nat) -> nat
    decreases x,
{
    if x == 0 {
        0
    } else {
        let s = isqrt((x - 1) as nat);
        if (s + 1) * (s + 1) <= x {
            s + 1
        } else {
            s
        }
    }
}

proof fn lemma_isqrt_bounds(x: nat)
    ensures
        isqrt(x) * isqrt(x) <= x < (isqrt(x) + 1) * (isqrt(x) + 1),
    decreases x,
{
    if x > 0 {
        lemma_isqrt_bounds((x - 1) as nat);
        let s = isqrt((x - 1) as nat);
        assert(x <= (s + 1) * (s + 1) < (s + 2) * (s + 2)) by (nonlinear_arith)
            requires
                x - 1 < (s + 1) * (s + 1),
        ;
        let t = isqrt(x);
        if (s + 1) * (s + 1) <= x {
            assert(t == s + 1);
            assert(t * t <= x < (t + 1) * (t + 1)) by (nonlinear_arith)
                requires
                    t == s + 1,
                    (s + 1) * (s + 1) <= x,
                    x < (s + 2) * (s + 2),
            ;
        } else {
            assert(t == s);
            assert(s * s <= x);
            assert(x < (t + 1) * (t + 1));
        }
        assert(t * t <= x < (t + 1) * (t + 1));
    } else {
        let t = isqrt(x);
        assert(t * t <= x < (t + 1) * (t + 1)) by (nonlinear_arith)
            requires
                t == 0,
                x == 0,
        ;
    }
}

proof fn lemma_isqrt_unique(x: nat, s: nat)
    requires
        s * s <= x < (s + 1) * (s + 1),
    ensures
        isqrt(x) == s,
{
    lemma_isqrt_bounds(x);
    let t = isqrt(x);
    if t < s {
        assert((t + 1) * (t + 1) <= s * s) by (nonlinear_arith)
            requires
                t + 1 <= s,
        ;
    } else if s < t {
        assert((s + 1) * (s + 1) <= t * t) by (nonlinear_arith)
            requires
                s + 1 <= t,
        ;
    }
}

/// The square root of `x`, rounded up.
pub open spec fn ceil_sqrt(x: nat) -> nat {
    let s = isqrt(x);
    if s * s == x {
        s
    } else {
        s + 1
    }
}

/// Squared distance from `a` to `b`, softened by `eps²`.
pub open spec fn dist_sq(c: Config, a: Body, b: Body) -> int {
    let dx = b.position.x - a.position.x;
    let dy = b.position.y - a.position.y;
    dx * dx + dy * dy + c.eps * c.eps
}

/// One component of the acceleration of magnitude `G·m / d2` along the
/// direction whose component is `r / sqrt(d2)`: `G·m·r / (d2·sqrt(d2))`,
/// with the square root rounded up and the quotient rounded toward zero.
/// Rounding the root up keeps `|r| / sqrt(d2)` at most one, so the term never
/// exceeds the exact value; it is exact where `d2` is a perfect square.
pub open spec fn pull(c: Config, m: int, r: int, d2: int) -> int {
    let den = c.g_den * d2 * ceil_sqrt(d2 as nat);
    if r >= 0 {
        (c.g_num * m * r) / den
    } else {
        -((c.g_num * m * (-r)) / den)
    }
}

/// Acceleration that `b` gives `a` in one tick, as `(x, y)`.
pub open spec fn accel(c: Config, a: Body, b: Body) -> (int, int) {
    let d2 = dist_sq(c, a, b);
    (
        pull(c, b.mass as int, b.position.x - a.position.x, d2),
        pull(c, b.mass as int, b.position.y - a.position.y, d2),
    )
}

/// Acceleration that the bodies `s[0..hi]` other than `s[i]` give `s[i]`.
pub open spec fn accel_sum(c: Config, s: Seq<Body>, i: int, hi: int) -> (int, int)
    decreases hi,
{
    if hi <= 0 {
        (0, 0)
    } else {
        let prev = accel_sum(c, s, i, hi - 1);
        if hi - 1 == i {
            prev
        } else {
            let a = accel(c, s[i], s[hi - 1]);
            (prev.0 + a.0, prev.1 + a.1)
        }
    }
}

/// Acceleration that all the other bodies of `s` give `s[i]`.
pub open spec fn total_accel(c: Config, s: Seq<Body>, i: int) -> (int, int) {
    accel_sum(c, s, i, s.len() as int)
}

/// Every velocity stays in range once its total acceleration is added.
pub open spec fn gravity_fits(c: Config, s: Seq<Body>) -> bool {
    forall|k: int|
        0 <= k < s.len() ==> coord_ok(#[trigger] s[k].velocity.x + total_accel(c, s, k).0)
            && coord_ok(s[k].velocity.y + total_accel(c, s, k).1)
}

/// `b` with `dv` added to its velocity.
pub open spec fn accelerated(b: Body, dv: (int, int)) -> Body {
    Body {
        position: b.position,
        velocity: Vec2 { x: (b.velocity.x + dv.0) as i64, y: (b.velocity.y + dv.1) as i64 },
        mass: b.mass,
        radius: b.radius,
        is_anchor: b.is_anchor,
    }
}

/// The bodies of `s` after one pass of the solver.
pub open spec fn after_gravity(c: Config, s: Seq<Body>) -> Seq<Body> {
    Seq::new(s.len(), |k: int| accelerated(s[k], total_accel(c, s, k)))
}

proof fn lemma_pull_bound(c: Config, m: int, r: int, d2: int)
    requires
        c.wf(),
        0 < m < 0x1_0000_0000,
        -2 * COORD_LIMIT <= r <= 2 * COORD_LIMIT,
        d2 >= 1,
    ensures
        -pull_bound() <= pull(c, m, r, d2) <= pull_bound(),
{
    lemma_isqrt_bounds(d2 as nat);
    let s = isqrt(d2 as nat);
    if s == 0 {
        assert(false) by (nonlinear_arith)
            requires
                d2 < (s + 1) * (s + 1),
                s == 0,
                d2 >= 1,
        ;
    }
    let s = ceil_sqrt(d2 as nat);
    assert(s >= 1);
    let den = c.g_den * d2 * s;
    assert(den >= 1) by (nonlinear_arith)
        requires
            c.g_den >= 1,
            d2 >= 1,
            s >= 1,
            den == c.g_den * d2 * s,
    ;
    let mag = if r >= 0 {
        r
    } else {
        -r
    };
    let n = c.g_num * m * mag;
    assert(0 <= n <= pull_bound()) by (nonlinear_arith)
        requires
            0 <= c.g_num < 0x1_0000_0000,
            0 < m < 0x1_0000_0000,
            0 <= mag <= 0x200_0000_0000,
            n == c.g_num * m * mag,
    ;
    assert(0 <= n / den <= n) by (nonlinear_arith)
        requires
            n >= 0,
            den >= 1,
    ;
}

/// Component of `pull` for the concrete values of one pair.
fn pull_exec(c: &Config, m: u32, r: i128, d2: u128, dist: u128) -> (p: i128)
    requires
        c.wf(),
        m > 0,
        -2 * COORD_LIMIT <= r <= 2 * COORD_LIMIT,
        d2 >= 1,
        dist == ceil_sqrt(d2 as nat),
    ensures
        p == pull(*c, m as int, r as int, d2 as int),
        -pull_bound() <= p <= pull_bound(),
{
    proof {
        lemma_isqrt_bounds(d2 as nat);
        let s = isqrt(d2 as nat);
        if s == 0 {
            assert(false) by (nonlinear_arith)
                requires
                    d2 < (s + 1) * (s + 1),
                    s == 0,
                    d2 >= 1,
            ;
        }
        assert(dist >= 1);
        lemma_pull_bound(*c, m as int, r as int, d2 as int);
    }
    let mag: u128 = if r >= 0 {
        r as u128
    } else {
        (-r) as u128
    };
    assert(c.g_num * m * mag <= pull_bound()) by (nonlinear_arith)
        requires
            0 <= c.g_num < 0x1_0000_0000,
            0 < m < 0x1_0000_0000,
            0 <= mag <= 0x200_0000_0000,
    ;
    assert(c.g_num * m <= 0xffff_ffff * 0xffff_ffff) by (nonlinear_arith)
        requires
            0 <= c.g_num <= 0xffff_ffff,
            0 < m <= 0xffff_ffff,
    ;
    let n: u128 = c.g_num as u128 * m as u128 * mag;
    let q: u128 = n / (c.g_den as u128) / d2 / dist;
    proof {
        lemma_div_denominator(n as int, c.g_den as int, d2 as int);
        lemma_div_denominator(n as int, c.g_den * d2, dist as int);
    }
    if r >= 0 {
        q as i128
    } else {
        -(q as i128)
    }
}

/// Accelerations of a pair: what `b` gives `a`, then what `a` gives `b`.
fn pair_accels(c: &Config, a: &Body, b: &Body) -> (r: ((i128, i128), (i128, i128)))
    requires
        c.wf(),
        a.wf(),
        b.wf(),
    ensures
        r.0.0 == accel(*c, *a, *b).0,
        r.0.1 == accel(*c, *a, *b).1,
        r.1.0 == accel(*c, *b, *a).0,
        r.1.1 == accel(*c, *b, *a).1,
{
    let dx: i128 = b.position.x as i128 - a.position.x as i128;
    let dy: i128 = b.position.y as i128 - a.position.y as i128;
    assert(0 <= dx * dx <= 0x4_0000_0000_0000_0000_0000 && 0 <= dy * dy
        <= 0x4_0000_0000_0000_0000_0000) by (nonlinear_arith)
        requires
            -0x200_0000_0000 <= dx <= 0x200_0000_0000,
            -0x200_0000_0000 <= dy <= 0x200_0000_0000,
    ;
    assert(0 < c.eps * c.eps <= 0xffff_ffff * 0xffff_ffff) by (nonlinear_arith)
        requires
            0 < c.eps <= 0xffff_ffff,
    ;
    let d2: u128 = (dx * dx + dy * dy) as u128 + c.eps as u128 * c.eps as u128;
    proof {
        let (ax, ay, bx, by, e) = (
            a.position.x as int,
            a.position.y as int,
            b.position.x as int,
            b.position.y as int,
            c.eps as int,
        );
        assert(d2 == (ax - bx) * (ax - bx) + (ay - by) * (ay - by) + e * e) by (nonlinear_arith)
            requires
                d2 == dx * dx + dy * dy + e * e,
                dx == bx - ax,
                dy == by - ay,
        ;
    }
    assert(d2 == dist_sq(*c, *a, *b));
    assert(d2 == dist_sq(*c, *b, *a));
    let s = isqrt_u128(d2);
    proof {
        lemma_isqrt_bounds(d2 as nat);
        if s >= 0x400_0000_0000 {
            assert(s * s >= 0x400_0000_0000 * 0x400_0000_0000) by (nonlinear_arith)
                requires
                    s >= 0x400_0000_0000,
            ;
        }
    }
    let dist = if s * s < d2 {
        s + 1
    } else {
        s
    };
    let ax = pull_exec(c, b.mass, dx, d2, dist);
    let ay = pull_exec(c, b.mass, dy, d2, dist);
    let bx = pull_exec(c, a.mass, -dx, d2, dist);
    let by = pull_exec(c, a.mass, -dy, d2, dist);
    ((ax, ay), (bx, by))
}

/// Bound on the square that `isqrt_u128` accepts (2^84).
pub open spec fn isqrt_limit() -> int {
    0x10_0000_0000_0000_0000_0000
}

/// The integer square root of `x`, by bisection.
fn isqrt_u128(x: u128) -> (s: u128)
    requires
        x < isqrt_limit(),
    ensures
        s == isqrt(x as nat),
{
    let mut lo: u128 = 0;
    let mut hi: u128 = 0x400_0000_0000;
    assert(hi * hi == isqrt_limit()) by (nonlinear_arith)
        requires
            hi == 0x400_0000_0000,
    ;
    while hi - lo > 1
        invariant
            lo < hi <= 0x400_0000_0000,
            lo * lo <= x < hi * hi,
        decreases hi - lo,
    {
        let mid: u128 = lo + (hi - lo) / 2;
        assert(mid * mid <= 0x400_0000_0000 * 0x400_0000_0000) by (nonlinear_arith)
            requires
                0 <= mid <= 0x400_0000_0000,
        ;
        if mid * mid <= x {
            lo = mid;
        } else {
            hi = mid;
        }
    }
    proof {
        lemma_isqrt_unique(x as nat, lo as nat);
    }
    lo
}


proof fn lemma_accel_sum_bound(c: Config, s: Seq<Body>, i: int, hi: int)
    requires
        c.wf(),
        all_wf(s),
        0 <= i < s.len(),
        hi <= s.len(),
    ensures
        -hi * pull_bound() <= accel_sum(c, s, i, hi).0 <= hi * pull_bound() || hi <= 0,
        -hi * pull_bound() <= accel_sum(c, s, i, hi).1 <= hi * pull_bound() || hi <= 0,
    decreases hi,
{
    if hi > 0 {
        lemma_accel_sum_bound(c, s, i, hi - 1);
        if hi - 1 != i {
            let a = s[i];
            let b = s[hi - 1];
            assert(a.wf() && b.wf());
            assert(dist_sq(c, a, b) >= 1) by (nonlinear_arith)
                requires
                    c.eps >= 1,
                    dist_sq(c, a, b) == (b.position.x - a.position.x) * (b.position.x
                        - a.position.x) + (b.position.y - a.position.y) * (b.position.y
                        - a.position.y) + c.eps * c.eps,
            ;
            lemma_pull_bound(c, b.mass as int, b.position.x - a.position.x, dist_sq(c, a, b));
            lemma_pull_bound(c, b.mass as int, b.position.y - a.position.y, dist_sq(c, a, b));
        }
    }
}

/// Adds to each velocity the acceleration that every other body gives it:
/// one pass of the gravity solver over every unordered pair `i < j`.
///
/// Fails with `OutOfRange`, leaving the bodies as they were, exactly when a
/// resulting velocity component would leave the range.
pub fn gravity_between_bodies(c: &Config, bodies: &mut Vec<Body>) -> (r: Result<(), SimError>)
    requires
        c.wf(),
        all_wf(old(bodies)@),
    ensures
        r is Ok <==> gravity_fits(*c, old(bodies)@),
        r is Ok ==> final(bodies)@ == after_gravity(*c, old(bodies)@),
        r is Err ==> final(bodies)@ == old(bodies)@ && r == Err::<(), SimError>(
            SimError::OutOfRange,
        ),
{
    let ghost s = bodies@;
    let n = bodies.len();
    let mut ax: Vec<i128> = Vec::new();
    let mut ay: Vec<i128> = Vec::new();
    let mut k: usize = 0;
    while k < n
        invariant
            k <= n == s.len(),
            ax@.len() == k,
            ay@.len() == k,
            forall|m: int| 0 <= m < k ==> ax@[m] == 0 && ay@[m] == 0,
        decreases n - k,
    {
        ax.push(0);
        ay.push(0);
        k = k + 1;
    }
    let mut i: usize = 0;
    while i < n
        invariant
            c.wf(),
            all_wf(s),
            bodies@ == s,
            i <= n == s.len(),
            ax@.len() == n,
            ay@.len() == n,
            forall|m: int|
                0 <= m < i ==> ax@[m] == accel_sum(*c, s, m, n as int).0 && ay@[m] == accel_sum(
                    *c,
                    s,
                    m,
                    n as int,
                ).1,
            forall|m: int|
                i <= m < n ==> ax@[m] == accel_sum(*c, s, m, i as int).0 && ay@[m] == accel_sum(
                    *c,
                    s,
                    m,
                    i as int,
                ).1,
        decreases n - i,
    {
        let mut j: usize = i + 1;
        assert(accel_sum(*c, s, i as int, j as int) == accel_sum(*c, s, i as int, i as int));
        while j < n
            invariant
                c.wf(),
                all_wf(s),
                bodies@ == s,
                i < j <= n == s.len(),
                ax@.len() == n,
                ay@.len() == n,
                forall|m: int|
                    0 <= m < i ==> ax@[m] == accel_sum(*c, s, m, n as int).0 && ay@[m]
                        == accel_sum(*c, s, m, n as int).1,
                ax@[i as int] == accel_sum(*c, s, i as int, j as int).0,
                ay@[i as int] == accel_sum(*c, s, i as int, j as int).1,
                forall|m: int|
                    i < m < j ==> ax@[m] == accel_sum(*c, s, m, i + 1).0 && ay@[m] == accel_sum(
                        *c,
                        s,
                        m,
                        i + 1,
                    ).1,
                forall|m: int|
                    j <= m < n ==> ax@[m] == accel_sum(*c, s, m, i as int).0 && ay@[m]
                        == accel_sum(*c, s, m, i as int).1,
            decreases n - j,
        {
            let (on_i, on_j) = pair_accels(c, &bodies[i], &bodies[j]);
            proof {
                lemma_accel_sum_bound(*c, s, i as int, j + 1);
                lemma_accel_sum_bound(*c, s, j as int, i + 1);
                assert(j + 1 <= MAX_BODIES);
                assert((j + 1) * pull_bound() <= MAX_BODIES * pull_bound()) by (nonlinear_arith)
                    requires
                        j + 1 <= MAX_BODIES,
                ;
                assert(i + 1 <= MAX_BODIES);
                assert((i + 1) * pull_bound() <= MAX_BODIES * pull_bound()) by (nonlinear_arith)
                    requires
                        i + 1 <= MAX_BODIES,
                ;
            }
            ax.set(i, ax[i] + on_i.0);
            ay.set(i, ay[i] + on_i.1);
            ax.set(j, ax[j] + on_j.0);
            ay.set(j, ay[j] + on_j.1);
            j = j + 1;
        }
        i = i + 1;
    }
    let mut k: usize = 0;
    while k < n
        invariant
            c.wf(),
            all_wf(s),
            bodies@ == s,
            k <= n == s.len(),
            ax@.len() == n,
            ay@.len() == n,
            forall|m: int|
                0 <= m < n ==> ax@[m] == total_accel(*c, s, m).0 && ay@[m] == total_accel(
                    *c,
                    s,
                    m,
                ).1,
            forall|m: int|
                0 <= m < k ==> coord_ok(#[trigger] s[m].velocity.x + total_accel(*c, s, m).0)
                    && coord_ok(s[m].velocity.y + total_accel(*c, s, m).1),
        decreases n - k,
    {
        proof {
            lemma_accel_sum_bound(*c, s, k as int, n as int);
            assert(n * pull_bound() <= MAX_BODIES * pull_bound()) by (nonlinear_arith)
                requires
                    n <= MAX_BODIES,
            ;
            assert(s[k as int].wf());
        }
        let vx = bodies[k].velocity.x as i128 + ax[k];
        let vy = bodies[k].velocity.y as i128 + ay[k];
        if vx < -(COORD_LIMIT as i128) || vx > COORD_LIMIT as i128 || vy < -(COORD_LIMIT as i128)
            || vy > COORD_LIMIT as i128 {
            return Err(SimError::OutOfRange);
        }
        k = k + 1;
    }
    let mut k: usize = 0;
    while k < n
        invariant
            gravity_fits(*c, s),
            bodies@.len() == n == s.len(),
            k <= n,
            ax@.len() == n,
            ay@.len() == n,
            forall|m: int|
                0 <= m < n ==> ax@[m] == total_accel(*c, s, m).0 && ay@[m] == total_accel(
                    *c,
                    s,
                    m,
                ).1,
            forall|m: int| 0 <= m < k ==> bodies@[m] == after_gravity(*c, s)[m],
            forall|m: int| k <= m < n ==> bodies@[m] == s[m],
        decreases n - k,
    {
        let b = bodies[k];
        assert(coord_ok(s[k as int].velocity.x + total_accel(*c, s, k as int).0));
        let nv = Vec2 {
            x: (b.velocity.x as i128 + ax[k]) as i64,
            y: (b.velocity.y as i128 + ay[k]) as i64,
        };
        bodies.set(
            k,
            Body {
                position: b.position,
                velocity: nv,
                mass: b.mass,
                radius: b.radius,
                is_anchor: b.is_anchor,
            },
        );
        k = k + 1;
    }
    assert(bodies@ =~= after_gravity(*c, s));
    Ok(())
}

proof fn lemma_ceil_sqrt_covers(x: nat)
    ensures
        ceil_sqrt(x) * ceil_sqrt(x) >= x,
{
    lemma_isqrt_bounds(x);
}

/// Each pair term is at most the exact value `G·m·|r| / (d2·sqrt(d2))` in
/// magnitude, stated without the root: `(p·g_den·d2)²·d2 ≤ (g_num·m·r)²`.
/// So the direction factor never exceeds one and the softening bound holds.
pub proof fn pull_at_most_exact(c: Config, m: int, r: int, d2: int)
    requires
        c.wf(),
        m >= 0,
        d2 >= 1,
    ensures
        (pull(c, m, r, d2) * c.g_den * d2) * (pull(c, m, r, d2) * c.g_den * d2) * d2 <= (c.g_num * m
            * r) * (c.g_num * m * r),
{
    lemma_isqrt_bounds(d2 as nat);
    let s0 = isqrt(d2 as nat);
    if s0 == 0 {
        assert(false) by (nonlinear_arith)
            requires
                d2 < (s0 + 1) * (s0 + 1),
                s0 == 0,
                d2 >= 1,
        ;
    }
    let cs = ceil_sqrt(d2 as nat) as int;
    lemma_ceil_sqrt_covers(d2 as nat);
    assert(cs >= 1);
    let gd = c.g_den as int;
    let g = c.g_num as int;
    let den = gd * d2 * cs;
    assert(den >= 1) by (nonlinear_arith)
        requires
            gd >= 1,
            d2 >= 1,
            cs >= 1,
            den == gd * d2 * cs,
    ;
    let mag = if r >= 0 {
        r
    } else {
        -r
    };
    let n = g * m * mag;
    assert(n >= 0 && n * n == (g * m * r) * (g * m * r)) by (nonlinear_arith)
        requires
            g >= 0,
            m >= 0,
            mag >= 0,
            mag == r || mag == -r,
            n == g * m * mag,
    ;
    let q = n / den;
    lemma_fundamental_div_mod(n, den);
    assert(0 <= n % den);
    assert(q >= 0 && q * den <= n) by (nonlinear_arith)
        requires
            n >= 0,
            den >= 1,
            n == den * q + n % den,
            0 <= n % den,
            q == n / den,
    ;
    let p = pull(c, m, r, d2);
    assert(p == q || p == -q);
    let a = q * gd * d2;
    assert(a >= 0 && a * cs <= n) by (nonlinear_arith)
        requires
            q >= 0,
            gd >= 1,
            d2 >= 1,
            a == q * gd * d2,
            q * den <= n,
            den == gd * d2 * cs,
    ;
    assert(a * a * d2 <= n * n) by (nonlinear_arith)
        requires
            a >= 0,
            cs >= 1,
            cs * cs >= d2,
            a * cs <= n,
    ;
    assert((p * gd * d2) * (p * gd * d2) == a * a) by (nonlinear_arith)
        requires
            p == q || p == -q,
            a == q * gd * d2,
    ;
}

proof fn lemma_quotient_balance(ma: int, mb: int, x1: int, x2: int, den: int)
    requires
        ma > 0,
        mb > 0,
        x1 >= 0,
        x2 >= 0,
        den >= 1,
        ma * x1 == mb * x2,
    ensures
        -ma < ma * (x1 / den) - mb * (x2 / den) < mb,
{
    lemma_fundamental_div_mod(x1, den);
    lemma_fundamental_div_mod(x2, den);
    let (q1, r1, q2, r2) = (x1 / den, x1 % den, x2 / den, x2 % den);
    assert(0 <= r1 < den && 0 <= r2 < den);
    let z = ma * q1 - mb * q2;
    let e = mb * r2 - ma * r1;
    assert(den * z == e) by (nonlinear_arith)
        requires
            x1 == den * q1 + r1,
            x2 == den * q2 + r2,
            ma * x1 == mb * x2,
            z == ma * q1 - mb * q2,
            e == mb * r2 - ma * r1,
    ;
    assert(ma * r1 < ma * den) by (nonlinear_arith)
        requires
            ma > 0,
            r1 < den,
    ;
    assert(mb * r2 < mb * den) by (nonlinear_arith)
        requires
            mb > 0,
            r2 < den,
    ;
    assert(ma * r1 >= 0 && mb * r2 >= 0) by (nonlinear_arith)
        requires
            ma > 0,
            mb > 0,
            r1 >= 0,
            r2 >= 0,
    ;
    if z >= mb {
        assert(den * z >= den * mb) by (nonlinear_arith)
            requires
                z >= mb,
                den >= 1,
        ;
        assert(den * mb == mb * den) by (nonlinear_arith);
    }
    if z <= -ma {
        assert(den * z <= den * -ma) by (nonlinear_arith)
            requires
                z <= -ma,
                den >= 1,
        ;
        assert(den * -ma == -(ma * den)) by (nonlinear_arith);
    }
}

proof fn lemma_pull_balance(c: Config, ma: int, mb: int, r: int, d2: int)
    requires
        c.wf(),
        ma > 0,
        mb > 0,
        d2 >= 1,
    ensures
        -(ma + mb) < ma * pull(c, mb, r, d2) + mb * pull(c, ma, -r, d2) < ma + mb,
{
    lemma_isqrt_bounds(d2 as nat);
    let s = isqrt(d2 as nat);
    if s == 0 {
        assert(false) by (nonlinear_arith)
            requires
                d2 < (s + 1) * (s + 1),
                s == 0,
                d2 >= 1,
        ;
    }
    let s = ceil_sqrt(d2 as nat);
    assert(s >= 1);
    let den = c.g_den * d2 * s;
    assert(den >= 1) by (nonlinear_arith)
        requires
            c.g_den >= 1,
            d2 >= 1,
            s >= 1,
            den == c.g_den * d2 * s,
    ;
    let g = c.g_num as int;
    let p1 = pull(c, mb, r, d2);
    let p2 = pull(c, ma, -r, d2);
    if r >= 0 {
        let x1 = g * mb * r;
        let x2 = g * ma * r;
        assert(ma * x1 == mb * x2 && x1 >= 0 && x2 >= 0) by (nonlinear_arith)
            requires
                g >= 0,
                ma > 0,
                mb > 0,
                r >= 0,
                x1 == g * mb * r,
                x2 == g * ma * r,
        ;
        lemma_quotient_balance(ma, mb, x1, x2, den);
        let (q1, q2) = (x1 / den, x2 / den);
        assert(p1 == q1);
        if r == 0 {
            assert(x2 == 0 && c.g_num * ma * (-r) == 0) by (nonlinear_arith)
                requires
                    r == 0,
                    x2 == g * ma * r,
                    g == c.g_num,
            ;
            assert(p2 == q2);
            assert(q2 == 0);
        } else {
            assert(-(-r) == r);
            assert(p2 == -q2);
        }
        assert(p2 == -q2);
        assert(ma * p1 + mb * p2 == ma * q1 - mb * q2) by (nonlinear_arith)
            requires
                p1 == q1,
                p2 == -q2,
        ;
    } else {
        let x1 = g * mb * (-r);
        let x2 = g * ma * (-r);
        assert(ma * x1 == mb * x2 && x1 >= 0 && x2 >= 0) by (nonlinear_arith)
            requires
                g >= 0,
                ma > 0,
                mb > 0,
                r < 0,
                x1 == g * mb * (-r),
                x2 == g * ma * (-r),
        ;
        lemma_quotient_balance(ma, mb, x1, x2, den);
        let (q1, q2) = (x1 / den, x2 / den);
        assert(p1 == -q1);
        assert(p2 == q2);
        assert(ma * p1 + mb * p2 == -(ma * q1 - mb * q2)) by (nonlinear_arith)
            requires
                p1 == -q1,
                p2 == q2,
        ;
    }
}

/// Newton's third law, up to rounding: along each axis, the momentum that `a`
/// gains from `b` and the momentum that `b` gains from `a` in one tick cancel
/// to within less than the sum of their masses.
pub proof fn newton_third_law(c: Config, a: Body, b: Body)
    requires
        c.wf(),
        a.wf(),
        b.wf(),
    ensures
        -(a.mass + b.mass) < a.mass * accel(c, a, b).0 + b.mass * accel(c, b, a).0 < a.mass
            + b.mass,
        -(a.mass + b.mass) < a.mass * accel(c, a, b).1 + b.mass * accel(c, b, a).1 < a.mass
            + b.mass,
{
    let (ax, ay, bx, by, e) = (
        a.position.x as int,
        a.position.y as int,
        b.position.x as int,
        b.position.y as int,
        c.eps as int,
    );
    let d2 = dist_sq(c, a, b);
    assert(d2 == dist_sq(c, b, a) && d2 >= 1) by (nonlinear_arith)
        requires
            d2 == (bx - ax) * (bx - ax) + (by - ay) * (by - ay) + e * e,
            dist_sq(c, b, a) == (ax - bx) * (ax - bx) + (ay - by) * (ay - by) + e * e,
            e >= 1,
    ;
    lemma_pull_balance(c, a.mass as int, b.mass as int, bx - ax, d2);
    lemma_pull_balance(c, a.mass as int, b.mass as int, by - ay, d2);
    assert(ax - bx == -(bx - ax) && ay - by == -(by - ay));
}

/// Total momentum of `s` along x: the sum of `mass * velocity.x`.
pub open spec fn momentum_x(s: Seq<Body>) -> int
    decreases s.len(),
{
    if s.len() == 0 {
        0
    } else {
        momentum_x(s.drop_last()) + s.last().mass * s.last().velocity.x
    }
}

/// Total momentum of `s` along y: the sum of `mass * velocity.y`.
pub open spec fn momentum_y(s: Seq<Body>) -> int
    decreases s.len(),
{
    if s.len() == 0 {
        0
    } else {
        momentum_y(s.drop_last()) + s.last().mass * s.last().velocity.y
    }
}

/// In a closed system of two bodies, one pass of the solver changes the total
/// momentum along each axis by less than the sum of the two masses: only by
/// the rounding of the two accelerations, never by a systematic drift.
pub proof fn two_body_momentum(c: Config, s: Seq<Body>)
    requires
        c.wf(),
        all_wf(s),
        s.len() == 2,
        gravity_fits(c, s),
    ensures
        -(s[0].mass + s[1].mass) < momentum_x(after_gravity(c, s)) - momentum_x(s) < s[0].mass
            + s[1].mass,
        -(s[0].mass + s[1].mass) < momentum_y(after_gravity(c, s)) - momentum_y(s) < s[0].mass
            + s[1].mass,
{
    let t = after_gravity(c, s);
    assert(s[0].wf() && s[1].wf());
    newton_third_law(c, s[0], s[1]);
    assert(accel_sum(c, s, 0, 1) == accel_sum(c, s, 0, 0));
    assert(total_accel(c, s, 0) == accel(c, s[0], s[1]));
    assert(accel_sum(c, s, 1, 0) == (0int, 0int));
    assert(accel_sum(c, s, 1, 1) == accel(c, s[1], s[0]));
    assert(total_accel(c, s, 1) == accel_sum(c, s, 1, 1));
    assert(coord_ok(s[0].velocity.x + total_accel(c, s, 0).0));
    assert(coord_ok(s[1].velocity.x + total_accel(c, s, 1).0));
    assert(t[0].velocity.x == s[0].velocity.x + accel(c, s[0], s[1]).0);
    assert(t[1].velocity.x == s[1].velocity.x + accel(c, s[1], s[0]).0);
    assert(t[0].velocity.y == s[0].velocity.y + accel(c, s[0], s[1]).1);
    assert(t[1].velocity.y == s[1].velocity.y + accel(c, s[1], s[0]).1);
    assert(s.drop_last().drop_last().len() == 0 && t.drop_last().drop_last().len() == 0);
    assert(s.drop_last().last() == s[0] && t.drop_last().last() == t[0]);
    let (m0, m1) = (s[0].mass as int, s[1].mass as int);
    let (v0, v1, a0, a1) = (
        s[0].velocity.x as int,
        s[1].velocity.x as int,
        accel(c, s[0], s[1]).0,
        accel(c, s[1], s[0]).0,
    );
    let (w0, w1, b0, b1) = (
        s[0].velocity.y as int,
        s[1].velocity.y as int,
        accel(c, s[0], s[1]).1,
        accel(c, s[1], s[0]).1,
    );
    assert(momentum_x(t.drop_last().drop_last()) == 0);
    assert(momentum_y(t.drop_last().drop_last()) == 0);
    assert(momentum_x(s.drop_last().drop_last()) == 0);
    assert(momentum_y(s.drop_last().drop_last()) == 0);
    assert(momentum_x(t.drop_last()) == m0 * t[0].velocity.x);
    assert(momentum_y(t.drop_last()) == m0 * t[0].velocity.y);
    assert(momentum_x(s.drop_last()) == m0 * s[0].velocity.x);
    assert(momentum_y(s.drop_last()) == m0 * s[0].velocity.y);
    assert(t.last() == t[1] && s.last() == s[1]);
    assert(momentum_x(t) == m0 * (v0 + a0) + m1 * (v1 + a1));
    assert(momentum_x(s) == m0 * v0 + m1 * v1);
    assert(momentum_y(t) == m0 * (w0 + b0) + m1 * (w1 + b1));
    assert(momentum_y(s) == m0 * w0 + m1 * w1);
    assert(m0 * (v0 + a0) + m1 * (v1 + a1) - (m0 * v0 + m1 * v1) == m0 * a0 + m1 * a1)
        by (nonlinear_arith);
    assert(m0 * (w0 + b0) + m1 * (w1 + b1) - (m0 * w0 + m1 * w1) == m0 * b0 + m1 * b1)
        by (nonlinear_arith);
}

} // verus!

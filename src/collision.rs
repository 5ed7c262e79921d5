//! Pairwise collision response: separation of overlapping balls along the
//! line of centres and a one-dimensional elastic exchange along that line,
//! with mass taken equal to radius.
use vstd::prelude::*;
use crate::arith::{
    abs, div_toward_zero, floor_sqrt, is_floor_sqrt, isqrt, lemma_abs_le_floor_sqrt,
    lemma_floor_sqrt_exists, lemma_lt_of_square_lt, lemma_mul_abs_bound, lemma_trunc_div_exact,
    lemma_trunc_div_neg,
    lemma_square_bound, lemma_trunc_div_bound, lemma_trunc_div_shrinks, limit_speed,
    limit_speed_of, scale_by_ppm, scale_ppm, trunc_div, COORD_LIMIT, PPM,
};
use crate::ball::{axis_clamped, clamp_axis, Ball};
use crate::config::Config;

verus! {

/// `b` with each coordinate that pokes out of the arena moved back to the wall.
pub open spec fn reclamped(b: Ball, cfg: Config) -> Ball {
    Ball {
        x: clamp_axis(b.x as int, b.radius as int, cfg.width as int) as i64,
        y: clamp_axis(b.y as int, b.radius as int, cfg.height as int) as i64,
        ..b
    }
}

/// The velocity of a ball of mass `m` and velocity `(vx, vy)` after an elastic
/// exchange with a ball of mass `om` and velocity `(ovx, ovy)` whose centre
/// lies at offset `(nx, ny)`: the component along the offset changes by
/// `2 om (w . n) / ((m + om) |n|^2)` with `w` the velocity difference, the
/// tangential component is kept; then the fraction `keep / PPM` is kept and
/// the speed limit applied.
pub open spec fn bounced(
    vx: int,
    vy: int,
    ovx: int,
    ovy: int,
    m: int,
    om: int,
    nx: int,
    ny: int,
    keep: int,
) -> (int, int) {
    let dot = (ovx - vx) * nx + (ovy - vy) * ny;
    let den = (m + om) * (nx * nx + ny * ny);
    (
        limit_speed(scale_ppm(vx + trunc_div(2 * om * dot * nx, den), keep)),
        limit_speed(scale_ppm(vy + trunc_div(2 * om * dot * ny, den), keep)),
    )
}

/// The outcome of resolving the contact of `a` (first) with `b` (second).
///
/// Both are first clamped back into the arena. Coincident centres are left
/// there. Otherwise, when the centre distance is below the sum of radii
/// widened by the tolerance, the overlap is split between the two along the
/// line of centres, except that on an axis where either was clamped the whole
/// correction goes to a ball not clamped there. Then both velocities are
/// exchanged along that line and damped.
///
/// The contact test compares squared distances exactly; the correction uses
/// the centre distance rounded down, and every quotient is rounded toward zero.
pub open spec fn collided(cfg: Config, a: Ball, b: Ball) -> (Ball, Ball) {
    let w = cfg.width as int;
    let h = cfg.height as int;
    let a1 = reclamped(a, cfg);
    let b1 = reclamped(b, cfg);
    let fax = axis_clamped(a.x as int, a.radius as int, w);
    let fay = axis_clamped(a.y as int, a.radius as int, h);
    let fbx = axis_clamped(b.x as int, b.radius as int, w);
    let fby = axis_clamped(b.y as int, b.radius as int, h);
    let dx = b1.x - a1.x;
    let dy = b1.y - a1.y;
    if dx == 0 && dy == 0 {
        (a1, b1)
    } else {
        let d2 = dx * dx + dy * dy;
        let dist = floor_sqrt(d2);
        let md = (a.radius + b.radius) * (PPM + cfg.collision_tolerance);
        let overlapping = d2 * (PPM * PPM) < md * md;
        let xdiv: int = if fax || fbx {
            1
        } else {
            2
        };
        let ydiv: int = if fay || fby {
            1
        } else {
            2
        };
        let cx = trunc_div(dx * (md - dist * PPM), dist * PPM * xdiv);
        let cy = trunc_div(dy * (md - dist * PPM), dist * PPM * ydiv);
        let keep = PPM - cfg.damping_ball;
        let va = bounced(a.vx as int, a.vy as int, b.vx as int, b.vy as int, a.radius as int, b.radius as int, dx, dy, keep);
        let vb = bounced(b.vx as int, b.vy as int, a.vx as int, a.vy as int, b.radius as int, a.radius as int, -dx, -dy, keep);
        (
            Ball {
                x: (if overlapping && !fax { a1.x - cx } else { a1.x as int }) as i64,
                y: (if overlapping && !fay { a1.y - cy } else { a1.y as int }) as i64,
                vx: va.0 as i64,
                vy: va.1 as i64,
                ..a
            },
            Ball {
                x: (if overlapping && !fbx { b1.x + cx } else { b1.x as int }) as i64,
                y: (if overlapping && !fby { b1.y + cy } else { b1.y as int }) as i64,
                vx: vb.0 as i64,
                vy: vb.1 as i64,
                ..b
            },
        )
    }
}

/// Moves `b` back into the arena where it pokes out; returns whether the x and
/// the y coordinate were moved.
fn reclamp(b: &mut Ball, cfg: &Config) -> (r: (bool, bool))
    requires
        old(b).in_wide_limits(),
        cfg.is_valid(),
    ensures
        *final(b) == reclamped(*old(b), *cfg),
        r.0 == axis_clamped(old(b).x as int, old(b).radius as int, cfg.width as int),
        r.1 == axis_clamped(old(b).y as int, old(b).radius as int, cfg.height as int),
        final(b).in_limits(),
{
    let mut fixed_x = false;
    let mut fixed_y = false;
    if b.outside_x_bounds_l() {
        fixed_x = true;
        b.x = b.radius;
    }
    if b.outside_x_bounds_r(cfg) {
        fixed_x = true;
        b.x = cfg.width as i64 - b.radius;
    }
    if b.outside_y_bounds_l() {
        fixed_y = true;
        b.y = b.radius;
    }
    if b.outside_y_bounds_r(cfg) {
        fixed_y = true;
        b.y = cfg.height as i64 - b.radius;
    }
    (fixed_x, fixed_y)
}

/// The velocity after an elastic exchange; see `bounced`.
fn bounce(vx: i64, vy: i64, ovx: i64, ovy: i64, m: i64, om: i64, nx: i64, ny: i64, keep: i64) -> (r: (i64, i64))
    requires
        abs(vx as int) <= COORD_LIMIT,
        abs(vy as int) <= COORD_LIMIT,
        abs(ovx as int) <= COORD_LIMIT,
        abs(ovy as int) <= COORD_LIMIT,
        0 < m <= COORD_LIMIT,
        0 < om <= COORD_LIMIT,
        abs(nx as int) <= 2 * COORD_LIMIT,
        abs(ny as int) <= 2 * COORD_LIMIT,
        nx != 0 || ny != 0,
        0 <= keep <= PPM,
    ensures
        r.0 == bounced(vx as int, vy as int, ovx as int, ovy as int, m as int, om as int, nx as int, ny as int, keep as int).0,
        r.1 == bounced(vx as int, vy as int, ovx as int, ovy as int, m as int, om as int, nx as int, ny as int, keep as int).1,
{
    let wx: i128 = ovx as i128 - vx as i128;
    let wy: i128 = ovy as i128 - vy as i128;
    let nx: i128 = nx as i128;
    let ny: i128 = ny as i128;
    proof {
        lemma_mul_abs_bound(wx as int, nx as int, 0x200_0000, 0x200_0000);
        lemma_mul_abs_bound(wy as int, ny as int, 0x200_0000, 0x200_0000);
        lemma_square_bound(nx as int, 0x200_0000);
        lemma_square_bound(ny as int, 0x200_0000);
    }
    let dot: i128 = wx * nx + wy * ny;
    let n2: i128 = nx * nx + ny * ny;
    assert(n2 > 0) by (nonlinear_arith)
        requires
            n2 == nx * nx + ny * ny,
            nx != 0 || ny != 0,
    ;
    let msum: i128 = m as i128 + om as i128;
    assert(msum * n2 <= 0x200_0000 * 0x8_0000_0000_0000) by (nonlinear_arith)
        requires
            0 < msum <= 0x200_0000,
            0 < n2 <= 0x8_0000_0000_0000,
    ;
    assert(msum * n2 > 0) by (nonlinear_arith)
        requires
            0 < msum,
            0 < n2,
    ;
    let den: i128 = msum * n2;
    let om2: i128 = 2 * om as i128;
    proof {
        lemma_mul_abs_bound(om2 as int, dot as int, 0x200_0000, 0x8_0000_0000_0000);
        lemma_mul_abs_bound(om2 as int * dot as int, nx as int, 0x1000_0000_0000_0000_0000, 0x200_0000);
        lemma_mul_abs_bound(om2 as int * dot as int, ny as int, 0x1000_0000_0000_0000_0000, 0x200_0000);
    }
    let px: i128 = om2 * dot * nx;
    let py: i128 = om2 * dot * ny;
    let qx = div_toward_zero(px, den);
    let qy = div_toward_zero(py, den);
    proof {
        lemma_trunc_div_shrinks(px as int, den as int);
        lemma_trunc_div_shrinks(py as int, den as int);
    }
    let ux = scale_by_ppm(vx as i128 + qx, keep);
    let uy = scale_by_ppm(vy as i128 + qy, keep);
    (limit_speed_of(ux), limit_speed_of(uy))
}

/// The sum of the radii widened by the tolerance, scaled by `PPM`.
fn contact_distance(r1: i64, r2: i64, tolerance: u32) -> (md: i128)
    requires
        0 < r1 <= COORD_LIMIT,
        0 < r2 <= COORD_LIMIT,
        tolerance <= PPM,
    ensures
        md == (r1 + r2) * (PPM + tolerance),
        0 < md <= 4 * COORD_LIMIT * PPM,
{
    let rsum: i128 = r1 as i128 + r2 as i128;
    let widen: i128 = PPM as i128 + tolerance as i128;
    assert(0 < rsum * widen <= 4 * COORD_LIMIT * PPM) by (nonlinear_arith)
        requires
            0 < rsum <= 2 * COORD_LIMIT,
            PPM <= widen <= 2 * PPM,
    ;
    rsum * widen
}

/// Whether the distance whose square is `d2` is below `md / PPM`.
fn closer_than(d2: u64, md: i128) -> (r: bool)
    requires
        d2 <= 8 * COORD_LIMIT * COORD_LIMIT,
        0 < md <= 4 * COORD_LIMIT * PPM,
    ensures
        r == (d2 * (PPM * PPM) < md * md),
{
    let d2w: i128 = d2 as i128;
    let ppm_sq: i128 = PPM as i128 * PPM as i128;
    assert(0 <= d2w * ppm_sq <= 8 * COORD_LIMIT * COORD_LIMIT * (PPM * PPM)) by (nonlinear_arith)
        requires
            0 <= d2w <= 8 * COORD_LIMIT * COORD_LIMIT,
            ppm_sq == PPM * PPM,
    ;
    proof {
        lemma_square_bound(md as int, 0x8000_0000_0000);
    }
    assert(d2w * ppm_sq == d2 * (PPM * PPM)) by (nonlinear_arith)
        requires
            ppm_sq == PPM * PPM,
            d2w == d2,
    ;
    d2w * ppm_sq < md * md
}

/// The correction along one axis for centres at offset `d` on that axis and
/// squared distance `d2`, with `dist` its square root rounded down, when the
/// scaled contact distance `md` exceeds the distance: `d / dist` times the
/// overlap, over `div`.
fn separation(d: i64, d2: u64, dist: u64, md: i128, div: i128) -> (r: i128)
    requires
        abs(d as int) <= 2 * COORD_LIMIT,
        d * d <= d2 <= 8 * COORD_LIMIT * COORD_LIMIT,
        d2 >= 1,
        is_floor_sqrt(d2 as int, dist as int),
        0 < md <= 4 * COORD_LIMIT * PPM,
        d2 * (PPM * PPM) < md * md,
        1 <= div <= 2,
    ensures
        r == trunc_div(d * (md - dist * PPM), dist * PPM * div),
        abs(r as int) <= 4 * COORD_LIMIT,
{
    proof {
        assert(dist >= 1) by (nonlinear_arith)
            requires
                is_floor_sqrt(d2 as int, dist as int),
                d2 >= 1,
        ;
        lemma_abs_le_floor_sqrt(d as int, d2 as int, dist as int);
        lemma_lt_of_square_lt(dist as int, 0x400_0000);
    }
    let distw: i128 = dist as i128;
    let d2w: i128 = d2 as i128;
    proof {
        assert((distw * PPM) * (distw * PPM) <= d2w * (PPM * PPM)) by (nonlinear_arith)
            requires
                distw * distw <= d2w,
        ;
        lemma_lt_of_square_lt(distw * PPM, md as int);
    }
    let gap: i128 = md - distw * PPM as i128;
    let dw: i128 = d as i128;
    assert(abs(dw * gap) <= (distw * PPM * div) * (4 * COORD_LIMIT)) by (nonlinear_arith)
        requires
            abs(dw as int) <= distw,
            0 < gap <= 4 * COORD_LIMIT * PPM,
            1 <= div,
            1 <= distw,
    ;
    assert(0 < distw * PPM * div <= 0x400_0000 * PPM * 2) by (nonlinear_arith)
        requires
            1 <= distw <= 0x400_0000,
            1 <= div <= 2,
    ;
    proof {
        lemma_trunc_div_bound(dw * gap, distw * PPM * div, 4 * COORD_LIMIT);
    }
    div_toward_zero(dw * gap, distw * PPM as i128 * div)
}

/// Resolves the contact of two distinct balls in place; see `collided`.
#[verifier::rlimit(100)]
pub fn collide(ball1: &mut Ball, ball2: &mut Ball, cfg: &Config)
    requires
        old(ball1).in_wide_limits(),
        old(ball2).in_wide_limits(),
        cfg.is_valid(),
    ensures
        (*final(ball1), *final(ball2)) == collided(*cfg, *old(ball1), *old(ball2)),
        final(ball1).in_wide_limits(),
        final(ball2).in_wide_limits(),
{
    let (fixed_1x, fixed_1y) = reclamp(ball1, cfg);
    let (fixed_2x, fixed_2y) = reclamp(ball2, cfg);
    let dx: i64 = ball2.x - ball1.x;
    let dy: i64 = ball2.y - ball1.y;
    if dx == 0 && dy == 0 {
        return;
    }
    proof {
        lemma_square_bound(dx as int, 2 * COORD_LIMIT);
        lemma_square_bound(dy as int, 2 * COORD_LIMIT);
    }
    let d2: u64 = (dx * dx + dy * dy) as u64;
    let dist: u64 = isqrt(d2);
    proof {
        assert(d2 >= 1) by (nonlinear_arith)
            requires
                d2 == dx * dx + dy * dy,
                dx != 0 || dy != 0,
        ;
        assert(dist >= 1) by (nonlinear_arith)
            requires
                is_floor_sqrt(d2 as int, dist as int),
                d2 >= 1,
        ;
        lemma_lt_of_square_lt(dist as int, 0x400_0000);
    }
    let md = contact_distance(ball1.radius, ball2.radius, cfg.collision_tolerance);
    let overlapping = closer_than(d2, md);
    let vel_1x = ball1.vx;
    let vel_1y = ball1.vy;
    let vel_2x = ball2.vx;
    let vel_2y = ball2.vy;
    if overlapping {
        let xdiv: i128 = if fixed_1x || fixed_2x {
            1
        } else {
            2
        };
        let ydiv: i128 = if fixed_1y || fixed_2y {
            1
        } else {
            2
        };
        let cx = separation(dx, d2, dist, md, xdiv);
        let cy = separation(dy, d2, dist, md, ydiv);
        if !fixed_1x {
            ball1.x = ball1.x - cx as i64;
        }
        if !fixed_1y {
            ball1.y = ball1.y - cy as i64;
        }
        if !fixed_2x {
            ball2.x = ball2.x + cx as i64;
        }
        if !fixed_2y {
            ball2.y = ball2.y + cy as i64;
        }
    }
    let keep: i64 = PPM - cfg.damping_ball as i64;
    let v1 = bounce(vel_1x, vel_1y, vel_2x, vel_2y, ball1.radius, ball2.radius, dx, dy, keep);
    let v2 = bounce(vel_2x, vel_2y, vel_1x, vel_1y, ball2.radius, ball1.radius, -dx, -dy, keep);
    ball1.vx = v1.0;
    ball1.vy = v1.1;
    ball2.vx = v2.0;
    ball2.vy = v2.1;
}

/// Resolves the contact of the balls at two distinct indices of `balls`.
/// By `lemma_collide_symmetric` the order of the two indices does not matter.
pub fn collide_balls(balls: &mut Vec<Ball>, index1: usize, index2: usize, cfg: &Config)
    requires
        index1 != index2,
        index1 < old(balls)@.len(),
        index2 < old(balls)@.len(),
        old(balls)@[index1 as int].in_wide_limits(),
        old(balls)@[index2 as int].in_wide_limits(),
        cfg.is_valid(),
    ensures
        final(balls)@ == old(balls)@.update(
            index1 as int,
            collided(*cfg, old(balls)@[index1 as int], old(balls)@[index2 as int]).0,
        ).update(
            index2 as int,
            collided(*cfg, old(balls)@[index1 as int], old(balls)@[index2 as int]).1,
        ),
        collided(*cfg, old(balls)@[index1 as int], old(balls)@[index2 as int]).0.in_wide_limits(),
        collided(*cfg, old(balls)@[index1 as int], old(balls)@[index2 as int]).1.in_wide_limits(),
{
    let (lo, hi) = if index1 < index2 {
        (index1, index2)
    } else {
        (index2, index1)
    };
    let mut ball1 = balls[lo];
    let mut ball2 = balls[hi];
    collide(&mut ball1, &mut ball2, cfg);
    balls.set(lo, ball1);
    balls.set(hi, ball2);
    proof {
        lemma_collide_symmetric(*cfg, old(balls)@[index1 as int], old(balls)@[index2 as int]);
    }
}

/// Resolving a contact is symmetric: resolving `(b, a)` gives the outcome of
/// resolving `(a, b)` with the two balls swapped.
pub proof fn lemma_collide_symmetric(cfg: Config, a: Ball, b: Ball)
    ensures
        collided(cfg, b, a) == (collided(cfg, a, b).1, collided(cfg, a, b).0),
{
    let a1 = reclamped(a, cfg);
    let b1 = reclamped(b, cfg);
    let dx = b1.x - a1.x;
    let dy = b1.y - a1.y;
    if !(dx == 0 && dy == 0) {
        assert((-dx) * (-dx) + (-dy) * (-dy) == dx * dx + dy * dy) by (nonlinear_arith);
        let d2 = dx * dx + dy * dy;
        assert(d2 >= 1) by (nonlinear_arith)
            requires
                d2 == dx * dx + dy * dy,
                dx != 0 || dy != 0,
        ;
        lemma_floor_sqrt_exists(d2);
        let dist = floor_sqrt(d2);
        assert(dist >= 1) by (nonlinear_arith)
            requires
                is_floor_sqrt(d2, dist),
                d2 >= 1,
        ;
        let md = (a.radius + b.radius) * (PPM + cfg.collision_tolerance);
        assert(md == (b.radius + a.radius) * (PPM + cfg.collision_tolerance));
        let gap = md - dist * PPM;
        assert((-dx) * gap == -(dx * gap)) by (nonlinear_arith);
        assert((-dy) * gap == -(dy * gap)) by (nonlinear_arith);
        assert(dist * PPM * 1 != 0 && dist * PPM * 2 != 0) by (nonlinear_arith)
            requires
                dist >= 1,
        ;
        lemma_trunc_div_neg(dx * gap, dist * PPM * 1);
        lemma_trunc_div_neg(dx * gap, dist * PPM * 2);
        lemma_trunc_div_neg(dy * gap, dist * PPM * 1);
        lemma_trunc_div_neg(dy * gap, dist * PPM * 2);
    }
}

/// Two balls of equal radius inside the arena, whose velocities both lie along
/// the line of their centres, exchange their velocities when nothing is lost
/// to the collision.
pub proof fn lemma_equal_mass_exchange(cfg: Config, a: Ball, b: Ball)
    requires
        cfg.is_valid(),
        cfg.damping_ball == 0,
        a.in_limits(),
        b.in_limits(),
        a.inside(cfg),
        b.inside(cfg),
        a.radius == b.radius,
        a.x != b.x || a.y != b.y,
        a.vx * (b.y - a.y) == a.vy * (b.x - a.x),
        b.vx * (b.y - a.y) == b.vy * (b.x - a.x),
    ensures
        collided(cfg, a, b).0.vx == b.vx,
        collided(cfg, a, b).0.vy == b.vy,
        collided(cfg, a, b).1.vx == a.vx,
        collided(cfg, a, b).1.vy == a.vy,
{
    let dx = b.x - a.x;
    let dy = b.y - a.y;
    let m = a.radius as int;
    assert(reclamped(a, cfg) == a);
    assert(reclamped(b, cfg) == b);
    let wx = b.vx - a.vx;
    let wy = b.vy - a.vy;
    let dot = wx * dx + wy * dy;
    let den = (m + m) * (dx * dx + dy * dy);
    assert(den > 0) by (nonlinear_arith)
        requires
            den == (m + m) * (dx * dx + dy * dy),
            m > 0,
            dx != 0 || dy != 0,
    ;
    let n2 = dx * dx + dy * dy;
    assert(wy * dx == wx * dy) by (nonlinear_arith)
        requires
            wx == b.vx - a.vx,
            wy == b.vy - a.vy,
            a.vx * dy == a.vy * dx,
            b.vx * dy == b.vy * dx,
    ;
    assert(dot * dx == wx * n2) by (nonlinear_arith)
        requires
            dot == wx * dx + wy * dy,
            n2 == dx * dx + dy * dy,
            wy * dx == wx * dy,
    ;
    assert(dot * dy == wy * n2) by (nonlinear_arith)
        requires
            dot == wx * dx + wy * dy,
            n2 == dx * dx + dy * dy,
            wy * dx == wx * dy,
    ;
    assert(2 * m * dot * dx == wx * den) by (nonlinear_arith)
        requires
            dot * dx == wx * n2,
            den == (m + m) * n2,
    ;
    assert(2 * m * dot * dy == wy * den) by (nonlinear_arith)
        requires
            dot * dy == wy * n2,
            den == (m + m) * n2,
    ;
    let dot2 = (-wx) * (-dx) + (-wy) * (-dy);
    let den2 = (m + m) * ((-dx) * (-dx) + (-dy) * (-dy));
    assert(dot2 == dot && den2 == den) by (nonlinear_arith)
        requires
            dot == wx * dx + wy * dy,
            den == (m + m) * (dx * dx + dy * dy),
            dot2 == (-wx) * (-dx) + (-wy) * (-dy),
            den2 == (m + m) * ((-dx) * (-dx) + (-dy) * (-dy)),
    ;
    assert(2 * m * dot2 * (-dx) == (-wx) * den && 2 * m * dot2 * (-dy) == (-wy) * den)
        by (nonlinear_arith)
        requires
            dot2 == dot,
            2 * m * dot * dx == wx * den,
            2 * m * dot * dy == wy * den,
    ;
    lemma_trunc_div_exact(wx, den);
    lemma_trunc_div_exact(wy, den);
    lemma_trunc_div_exact(-wx, den);
    lemma_trunc_div_exact(-wy, den);
    lemma_trunc_div_exact(b.vx as int, PPM as int);
    lemma_trunc_div_exact(b.vy as int, PPM as int);
    lemma_trunc_div_exact(a.vx as int, PPM as int);
    lemma_trunc_div_exact(a.vy as int, PPM as int);
}

} // verus!

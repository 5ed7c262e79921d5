//! A single circular body: its motion over one tick, its boundary checks and
//! wall response, and the contact test between two bodies.
use vstd::prelude::*;
use crate::arith::{
    abs, lemma_square_bound, limit_speed, limit_speed_of, scale_by_ppm, scale_ppm,
    COORD_LIMIT, PPM,
};
use crate::config::{Config, Gravity};

verus! {

/// `c` moved to `r` when the ball pokes out on the low side.
pub open spec fn clamp_low(c: int, r: int) -> int {
    if c - r < 0 {
        r
    } else {
        c
    }
}

/// `c` clamped to the legal range `[r, ext - r]` of a centre on one axis: the
/// low side is checked first, then the high side on the corrected value.
pub open spec fn clamp_axis(c: int, r: int, ext: int) -> int {
    let a = clamp_low(c, r);
    if a + r > ext {
        ext - r
    } else {
        a
    }
}

/// Whether `clamp_axis` moves `c`.
pub open spec fn axis_clamped(c: int, r: int, ext: int) -> bool {
    c - r < 0 || clamp_low(c, r) + r > ext
}

/// A moving disc. Position and velocity are in the caller's length unit (per
/// tick for velocity); `color` is a packed `0xRRGGBB` value used only for drawing.
#[derive(Clone, Copy, Debug, PartialEq, Eq, Structural)]
pub struct Ball {
    pub x: i64,
    pub y: i64,
    pub vx: i64,
    pub vy: i64,
    pub radius: i64,
    pub color: u32,
}

impl Ball {
    /// Radius positive, velocity components within the limit, and the centre
    /// within `k` times the limit on each axis.
    pub open spec fn within(self, k: int) -> bool {
        &&& 0 < self.radius <= COORD_LIMIT
        &&& abs(self.vx as int) <= COORD_LIMIT
        &&& abs(self.vy as int) <= COORD_LIMIT
        &&& abs(self.x as int) <= k * COORD_LIMIT
        &&& abs(self.y as int) <= k * COORD_LIMIT
    }

    /// The state of a ball between ticks.
    pub open spec fn in_limits(self) -> bool {
        self.within(1)
    }

    /// The state of a ball while a tick is under way.
    pub open spec fn in_wide_limits(self) -> bool {
        self.within(8)
    }

    pub open spec fn off_left(self) -> bool {
        self.x - self.radius < 0
    }

    pub open spec fn off_right(self, width: int) -> bool {
        self.x + self.radius > width
    }

    pub open spec fn off_top(self) -> bool {
        self.y - self.radius < 0
    }

    pub open spec fn off_bottom(self, height: int) -> bool {
        self.y + self.radius > height
    }

    pub open spec fn off_x(self, cfg: Config) -> bool {
        self.off_left() || self.off_right(cfg.width as int)
    }

    pub open spec fn off_y(self, cfg: Config) -> bool {
        self.off_top() || self.off_bottom(cfg.height as int)
    }

    /// The ball lies wholly inside the arena.
    pub open spec fn inside(self, cfg: Config) -> bool {
        !self.off_x(cfg) && !self.off_y(cfg)
    }

    /// The ball after one step of motion: the position moves by the velocity,
    /// then each velocity component loses the drag fraction.
    pub open spec fn integrated(self, cfg: Config) -> Ball {
        let keep = PPM - cfg.air_resistance;
        Ball {
            x: (self.x + self.vx) as i64,
            y: (self.y + self.vy) as i64,
            vx: scale_ppm(self.vx as int, keep) as i64,
            vy: scale_ppm(self.vy as int, keep) as i64,
            ..self
        }
    }

    /// The ball after the wall response of a tick.
    pub open spec fn bounded(self, cfg: Config, g: Gravity) -> Ball {
        let w = cfg.width as int;
        let h = cfg.height as int;
        let keep = PPM - cfg.damping_wall;
        let out_x = self.off_x(cfg);
        let out_y = self.off_y(cfg);
        let vx1 = if out_x {
            scale_ppm(-self.vx, keep)
        } else {
            self.vx as int
        };
        let vy1 = if !out_y {
            self.vy as int
        } else if g.y > 0 && self.off_bottom(h) {
            0
        } else {
            scale_ppm(-self.vy, keep)
        };
        let vx2 = if out_x || out_y {
            vx1
        } else {
            limit_speed(vx1 + g.x)
        };
        let vy2 = if out_x || out_y {
            vy1
        } else {
            limit_speed(vy1 + g.y)
        };
        Ball {
            x: clamp_axis(self.x as int, self.radius as int, w) as i64,
            y: clamp_axis(self.y as int, self.radius as int, h) as i64,
            vx: vx2 as i64,
            vy: vy2 as i64,
            ..self
        }
    }

    /// The squared centre distance times `1 + tolerance / PPM` is at most the
    /// squared sum of the radii.
    pub open spec fn touches(self, other: Ball, tolerance: int) -> bool {
        let dx = self.x - other.x;
        let dy = self.y - other.y;
        let s = self.radius + other.radius;
        (dx * dx + dy * dy) * (PPM + tolerance) <= s * s * PPM
    }

    pub fn new(x: i64, y: i64, vx: i64, vy: i64, radius: i64, color: u32) -> (r: Ball)
        ensures
            r == (Ball { x, y, vx, vy, radius, color }),
    {
        Ball { x, y, vx, vy, radius, color }
    }

    /// A ball with random colour, radius in `[5, max_radius)`, velocity
    /// components in `(-max_velocity, max_velocity)` and centre at least
    /// `max_radius` away from every wall.
    pub fn random(cfg: &Config, rng: &mut rand::rngs::StdRng) -> (r: Ball)
        requires
            cfg.can_spawn(),
        ensures
            r.in_limits(),
            r.inside(*cfg),
            5 <= r.radius < cfg.max_radius,
            -cfg.max_velocity < r.vx < cfg.max_velocity,
            -cfg.max_velocity < r.vy < cfg.max_velocity,
            cfg.max_radius <= r.x < cfg.width - cfg.max_radius,
            cfg.max_radius <= r.y < cfg.height - cfg.max_radius,
    {
        let color = random_color(rng);
        let x = draw_between(rng, cfg.max_radius, cfg.width as i64 - cfg.max_radius);
        let y = draw_between(rng, cfg.max_radius, cfg.height as i64 - cfg.max_radius);
        let vx = draw_between(rng, -cfg.max_velocity + 1, cfg.max_velocity);
        let vy = draw_between(rng, -cfg.max_velocity + 1, cfg.max_velocity);
        let radius = draw_between(rng, 5, cfg.max_radius);
        Ball { x, y, vx, vy, radius, color }
    }

    /// One step of motion with drag; drag never speeds a ball up.
    pub fn update(&mut self, cfg: &Config)
        requires
            old(self).in_limits(),
            cfg.is_valid(),
        ensures
            *final(self) == old(self).integrated(*cfg),
            abs(final(self).vx as int) <= abs(old(self).vx as int),
            abs(final(self).vy as int) <= abs(old(self).vy as int),
            final(self).within(2),
    {
        let keep: i64 = PPM - cfg.air_resistance as i64;
        self.x = self.x + self.vx;
        self.y = self.y + self.vy;
        self.vy = scale_by_ppm(self.vy as i128, keep) as i64;
        self.vx = scale_by_ppm(self.vx as i128, keep) as i64;
    }

    pub fn outside_x_bounds_l(&self) -> (r: bool)
        requires
            self.in_wide_limits(),
        ensures
            r == self.off_left(),
    {
        self.x - self.radius < 0
    }

    pub fn outside_x_bounds_r(&self, cfg: &Config) -> (r: bool)
        requires
            self.in_wide_limits(),
        ensures
            r == self.off_right(cfg.width as int),
    {
        self.x + self.radius > cfg.width as i64
    }

    pub fn outside_x_bounds(&self, cfg: &Config) -> (r: bool)
        requires
            self.in_wide_limits(),
        ensures
            r == self.off_x(*cfg),
    {
        self.outside_x_bounds_l() || self.outside_x_bounds_r(cfg)
    }

    pub fn outside_y_bounds_l(&self) -> (r: bool)
        requires
            self.in_wide_limits(),
        ensures
            r == self.off_top(),
    {
        self.y - self.radius < 0
    }

    pub fn outside_y_bounds_r(&self, cfg: &Config) -> (r: bool)
        requires
            self.in_wide_limits(),
        ensures
            r == self.off_bottom(cfg.height as int),
    {
        self.y + self.radius > cfg.height as i64
    }

    pub fn outside_y_bounds(&self, cfg: &Config) -> (r: bool)
        requires
            self.in_wide_limits(),
        ensures
            r == self.off_y(*cfg),
    {
        self.outside_y_bounds_l() || self.outside_y_bounds_r(cfg)
    }

    /// The wall response: a ball out on an axis has that velocity component
    /// reversed and damped (or zeroed when resting on the floor under downward
    /// gravity) and its centre clamped back; a ball that was inside on both
    /// axes gains the gravity vector instead. A ball that fits the arena ends
    /// inside it.
    pub fn check_bounds(&mut self, cfg: &Config, g: &Gravity)
        requires
            old(self).in_wide_limits(),
            cfg.is_valid(),
            g.is_valid(),
        ensures
            *final(self) == old(self).bounded(*cfg, *g),
            final(self).in_limits(),
            2 * old(self).radius <= cfg.width ==> old(self).radius <= final(self).x <= cfg.width
                - old(self).radius,
            2 * old(self).radius <= cfg.height ==> old(self).radius <= final(self).y
                <= cfg.height - old(self).radius,
    {
        let keep: i64 = PPM - cfg.damping_wall as i64;
        let out_x = self.outside_x_bounds(cfg);
        let out_y = self.outside_y_bounds(cfg);
        if out_x {
            self.vx = scale_by_ppm(-(self.vx as i128), keep) as i64;
        }
        if out_y {
            if g.y > 0 && self.outside_y_bounds_r(cfg) {
                self.vy = 0;
            } else {
                self.vy = scale_by_ppm(-(self.vy as i128), keep) as i64;
            }
        }
        if self.outside_x_bounds_l() {
            self.x = self.radius;
        }
        if self.outside_x_bounds_r(cfg) {
            self.x = cfg.width as i64 - self.radius;
        }
        if self.outside_y_bounds_l() {
            self.y = self.radius;
        }
        if self.outside_y_bounds_r(cfg) {
            self.y = cfg.height as i64 - self.radius;
        }
        if !out_x && !out_y {
            self.vy = limit_speed_of(self.vy as i128 + g.y as i128);
            self.vx = limit_speed_of(self.vx as i128 + g.x as i128);
        }
    }

    /// Whether the two balls are in contact, within the tolerance.
    pub fn check_collision(&self, other: &Ball, cfg: &Config) -> (r: bool)
        requires
            self.in_wide_limits(),
            other.in_wide_limits(),
            cfg.is_valid(),
        ensures
            r == self.touches(*other, cfg.collision_tolerance as int),
    {
        let dx: i128 = self.x as i128 - other.x as i128;
        let dy: i128 = self.y as i128 - other.y as i128;
        let s: i128 = self.radius as i128 + other.radius as i128;
        let widen: i128 = PPM as i128 + cfg.collision_tolerance as i128;
        proof {
            lemma_square_bound(dx as int, 0x2000_0000);
            lemma_square_bound(dy as int, 0x2000_0000);
            lemma_square_bound(s as int, 0x200_0000);
        }
        assert((dx * dx + dy * dy) * widen <= 0x40_0000_0000_0000_0000 * 0x40_0000)
            by (nonlinear_arith)
            requires
                0 <= dx * dx + dy * dy <= 0x40_0000_0000_0000_0000,
                0 <= widen <= 0x40_0000,
        ;
        assert(s * s * PPM <= 0x4_0000_0000_0000 * PPM) by (nonlinear_arith)
            requires
                0 <= s * s <= 0x4_0000_0000_0000,
        ;
        (dx * dx + dy * dy) * widen <= s * s * (PPM as i128)
    }
}

/// A random packed `0xRRGGBB` colour.
fn random_color(rng: &mut rand::rngs::StdRng) -> (r: u32)
    ensures
        r < 0x100_0000,
{
    let red = draw_between(rng, 0, 256);
    let green = draw_between(rng, 0, 256);
    let blue = draw_between(rng, 0, 256);
    (red * 65536 + green * 256 + blue) as u32
}

#[verifier::external_type_specification]
#[verifier::external_body]
pub struct ExStdRng(rand::rngs::StdRng);

/// Relies on rand::Rng::gen_range (rand 0.8) over `low..high`: it returns a
/// value of that range and panics only when the range is empty.
#[verifier::external_body]
fn draw_between(rng: &mut rand::rngs::StdRng, low: i64, high: i64) -> (r: i64)
    requires
        low < high,
    ensures
        low <= r < high,
{
    rand::Rng::gen_range(rng, low..high)
}

} // verus!

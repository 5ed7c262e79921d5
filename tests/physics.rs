use bouncing_balls::arith::COORD_LIMIT;
use bouncing_balls::ball::Ball;
use bouncing_balls::ballset::BallSet;
use bouncing_balls::collision::{collide, collide_balls};
use bouncing_balls::config::{Config, Gravity};
use rand::rngs::StdRng;
use rand::SeedableRng;

fn config(width: u32, height: u32) -> Config {
    Config {
        width,
        height,
        max_radius: 20,
        max_velocity: 10,
        ball_count: 5,
        air_resistance: 0,
        damping_wall: 0,
        damping_ball: 0,
        collision_tolerance: 0,
    }
}

#[test]
fn drag_scales_velocity_toward_zero() {
    let mut cfg = config(640, 480);
    cfg.air_resistance = 100_000;
    let mut b = Ball::new(100, 100, 1000, -1000, 10, 0);
    b.update(&cfg);
    assert_eq!((b.x, b.y), (1100, -900));
    assert_eq!((b.vx, b.vy), (900, -900));
}

#[test]
fn drag_rounds_toward_zero() {
    let mut cfg = config(640, 480);
    cfg.air_resistance = 500_000;
    let mut b = Ball::new(0, 0, 3, -3, 10, 0);
    b.update(&cfg);
    assert_eq!((b.vx, b.vy), (1, -1));
    assert!(b.vx.abs() <= 3 && b.vy.abs() <= 3);
}

#[test]
fn floor_rest_scenario() {
    let cfg = config(640, 480);
    let g = Gravity { x: 0, y: 2 };
    let mut b = Ball::new(100, 479, 0, 7, 20, 0);
    b.check_bounds(&cfg, &g);
    assert_eq!(b.vy, 0);
    assert_eq!(b.y, 460);
}

#[test]
fn wall_bounce_reverses_and_damps() {
    let mut cfg = config(640, 480);
    cfg.damping_wall = 500_000;
    let g = Gravity { x: 3, y: 3 };
    let mut b = Ball::new(-5, 100, -10, 4, 10, 0);
    b.check_bounds(&cfg, &g);
    assert_eq!(b.x, 10);
    assert_eq!(b.vx, 5);
    // out of bounds this tick: no gravity
    assert_eq!(b.vy, 4);
}

#[test]
fn ceiling_bounce_under_downward_gravity_still_bounces() {
    let cfg = config(640, 480);
    let g = Gravity { x: 0, y: 2 };
    let mut b = Ball::new(100, 5, 0, -6, 10, 0);
    b.check_bounds(&cfg, &g);
    assert_eq!(b.y, 10);
    assert_eq!(b.vy, 6);
}

#[test]
fn gravity_added_inside_arena() {
    let cfg = config(640, 480);
    let g = Gravity { x: 2, y: 3 };
    let mut b = Ball::new(100, 100, 1, 1, 10, 0);
    b.check_bounds(&cfg, &g);
    assert_eq!((b.x, b.y, b.vx, b.vy), (100, 100, 3, 4));
}

#[test]
fn gravity_saturates_at_speed_limit() {
    let cfg = config(640, 480);
    let g = Gravity { x: 5, y: -5 };
    let mut b = Ball::new(100, 100, COORD_LIMIT, -COORD_LIMIT, 10, 0);
    b.check_bounds(&cfg, &g);
    assert_eq!((b.vx, b.vy), (COORD_LIMIT, -COORD_LIMIT));
}

#[test]
fn bounds_predicates() {
    let cfg = config(640, 480);
    let b = Ball::new(5, 475, 0, 0, 10, 0);
    assert!(b.outside_x_bounds_l());
    assert!(!b.outside_x_bounds_r(&cfg));
    assert!(b.outside_x_bounds(&cfg));
    assert!(!b.outside_y_bounds_l());
    assert!(b.outside_y_bounds_r(&cfg));
    assert!(b.outside_y_bounds(&cfg));
    let c = Ball::new(320, 240, 0, 0, 10, 0);
    assert!(!c.outside_x_bounds(&cfg) && !c.outside_y_bounds(&cfg));
}

#[test]
fn detection_boundary() {
    let cfg = config(640, 480);
    let a = Ball::new(0, 0, 0, 0, 6, 0);
    let b = Ball::new(10, 0, 0, 0, 6, 0);
    assert!(a.check_collision(&b, &cfg));
    let set = BallSet::from_balls(vec![a, b]);
    assert_eq!(set.find_colliding_balls(&cfg), vec![(0, 1)]);
    assert_eq!(set.find_balls_colliding_with_ball(0, &cfg), vec![1]);
    assert_eq!(set.find_balls_colliding_with_ball(1, &cfg), vec![0]);

    let far = Ball::new(13, 0, 0, 0, 6, 0);
    assert!(!a.check_collision(&far, &cfg));
    let set = BallSet::from_balls(vec![a, far]);
    assert!(set.find_colliding_balls(&cfg).is_empty());
    assert!(set.find_balls_colliding_with_ball(1, &cfg).is_empty());
}

#[test]
fn tolerance_makes_detection_stricter() {
    let mut cfg = config(640, 480);
    let a = Ball::new(0, 0, 0, 0, 6, 0);
    let b = Ball::new(12, 1, 0, 0, 6, 0);
    assert!(!a.check_collision(&b, &cfg));
    cfg.collision_tolerance = 0;
    let touching = Ball::new(12, 0, 0, 0, 6, 0);
    assert!(a.check_collision(&touching, &cfg));
    cfg.collision_tolerance = 100_000;
    assert!(!a.check_collision(&touching, &cfg));
}

#[test]
fn partners_of_one_ball() {
    let cfg = config(640, 480);
    let set = BallSet::from_balls(vec![
        Ball::new(100, 100, 0, 0, 10, 0),
        Ball::new(300, 300, 0, 0, 10, 0),
        Ball::new(115, 100, 0, 0, 10, 0),
        Ball::new(100, 118, 0, 0, 10, 0),
    ]);
    assert_eq!(set.find_balls_colliding_with_ball(0, &cfg), vec![2, 3]);
    // (115, 100) and (100, 118): squared distance 549 > 400
    assert_eq!(set.find_balls_colliding_with_ball(2, &cfg), vec![0]);
    assert_eq!(set.find_balls_colliding_with_ball(3, &cfg), vec![0]);
    assert!(set.find_balls_colliding_with_ball(1, &cfg).is_empty());
    assert!(set.find_balls_colliding_with_ball(4, &cfg).is_empty());
    assert_eq!(set.find_colliding_balls(&cfg), vec![(0, 2), (0, 3)]);
}

#[test]
fn unequal_masses_exact_outcome() {
    let cfg = config(640, 480);
    let mut a = Ball::new(100, 100, 4, 0, 10, 0);
    let mut b = Ball::new(130, 100, 0, 0, 30, 0);
    collide(&mut a, &mut b, &cfg);
    assert_eq!((a.x, a.y), (95, 100));
    assert_eq!((b.x, b.y), (135, 100));
    assert_eq!((a.vx, a.vy), (-2, 0));
    assert_eq!((b.vx, b.vy), (2, 0));
}

#[test]
fn ball_damping_applies_after_exchange() {
    let mut cfg = config(640, 480);
    cfg.damping_ball = 500_000;
    let mut a = Ball::new(100, 100, 8, 0, 10, 0);
    let mut b = Ball::new(120, 100, -8, 0, 10, 0);
    collide(&mut a, &mut b, &cfg);
    assert_eq!((a.vx, a.vy), (-4, 0));
    assert_eq!((b.vx, b.vy), (4, 0));
}

#[test]
fn equal_mass_head_on_exchange() {
    let cfg = config(640, 480);
    let mut a = Ball::new(100, 100, 5, 0, 10, 0);
    let mut b = Ball::new(110, 100, -5, 0, 10, 0);
    collide(&mut a, &mut b, &cfg);
    assert_eq!((a.vx, a.vy), (-5, 0));
    assert_eq!((b.vx, b.vy), (5, 0));
    // overlap 10 split evenly
    assert_eq!((a.x, b.x), (95, 115));
}

#[test]
fn equal_mass_diagonal_exchange() {
    let cfg = config(640, 480);
    let mut a = Ball::new(100, 100, 6, 8, 10, 0);
    let mut b = Ball::new(106, 108, -3, -4, 10, 0);
    collide(&mut a, &mut b, &cfg);
    assert_eq!((a.vx, a.vy), (-3, -4));
    assert_eq!((b.vx, b.vy), (6, 8));
}

#[test]
fn resolver_symmetry() {
    let cfg = config(640, 480);
    let a0 = Ball::new(100, 100, 30, -20, 12, 1);
    let b0 = Ball::new(117, 109, -10, 40, 7, 2);
    let (mut a1, mut b1) = (a0, b0);
    collide(&mut a1, &mut b1, &cfg);
    let (mut a2, mut b2) = (a0, b0);
    collide(&mut b2, &mut a2, &cfg);
    assert_eq!(a1, a2);
    assert_eq!(b1, b2);
    assert_ne!((a1.vx, a1.vy), (a0.vx, a0.vy));
}

#[test]
fn coincident_centres_left_untouched() {
    let cfg = config(640, 480);
    let mut a = Ball::new(100, 100, 3, 1, 10, 0);
    let mut b = Ball::new(100, 100, -2, 5, 12, 0);
    collide(&mut a, &mut b, &cfg);
    assert_eq!(a, Ball::new(100, 100, 3, 1, 10, 0));
    assert_eq!(b, Ball::new(100, 100, -2, 5, 12, 0));
}

#[test]
fn wall_clamped_ball_keeps_its_position() {
    let cfg = config(640, 480);
    let mut a = Ball::new(5, 100, 0, 0, 10, 0);
    let mut b = Ball::new(20, 100, 0, 0, 10, 0);
    collide(&mut a, &mut b, &cfg);
    // a clamped to x = 10; distance 10, overlap 10 goes wholly to b
    assert_eq!(a.x, 10);
    assert_eq!(b.x, 30);
}

#[test]
fn collide_balls_either_order() {
    let cfg = config(640, 480);
    let balls = vec![
        Ball::new(100, 100, 3, -2, 12, 1),
        Ball::new(300, 300, 0, 0, 5, 3),
        Ball::new(117, 109, -1, 4, 7, 2),
    ];
    let mut one = balls.clone();
    collide_balls(&mut one, 0, 2, &cfg);
    let mut two = balls.clone();
    collide_balls(&mut two, 2, 0, &cfg);
    assert_eq!(one, two);
    assert_eq!(one[1], balls[1]);
    let (mut a, mut b) = (balls[0], balls[2]);
    collide(&mut a, &mut b, &cfg);
    assert_eq!((one[0], one[2]), (a, b));
}

#[test]
fn sort_by_height_is_stable_and_descending() {
    let mut set = BallSet::from_balls(vec![
        Ball::new(1, 10, 0, 0, 5, 0),
        Ball::new(2, 30, 0, 0, 5, 0),
        Ball::new(3, 20, 0, 0, 5, 0),
        Ball::new(4, 30, 0, 0, 5, 0),
        Ball::new(5, 10, 0, 0, 5, 0),
    ]);
    set.sort_by_height();
    let xs: Vec<i64> = set.balls().iter().map(|b| b.x).collect();
    assert_eq!(xs, vec![2, 4, 3, 1, 5]);
}

#[test]
fn tick_keeps_balls_in_arena() {
    let mut cfg = config(200, 150);
    cfg.air_resistance = 10_000;
    cfg.damping_wall = 100_000;
    cfg.damping_ball = 50_000;
    let g = Gravity { x: 0, y: 2 };
    let mut set = BallSet::from_balls(vec![
        Ball::new(20, 20, 9, 7, 10, 0),
        Ball::new(35, 25, -6, 3, 12, 0),
        Ball::new(190, 140, 5, 5, 10, 0),
        Ball::new(100, 70, 0, 0, 15, 0),
    ]);
    for _ in 0..200 {
        set.update_loop(&cfg, &g);
        for b in set.balls() {
            assert!(b.radius <= b.x && b.x <= 200 - b.radius);
            assert!(b.radius <= b.y && b.y <= 150 - b.radius);
        }
    }
    assert_eq!(set.balls().len(), 4);
}

#[test]
fn tick_single_ball_exact() {
    let cfg = config(640, 480);
    let g = Gravity { x: 0, y: 2 };
    let mut set = BallSet::from_balls(vec![Ball::new(100, 100, 3, 4, 10, 0)]);
    set.update_loop(&cfg, &g);
    assert_eq!(set.balls()[0], Ball::new(103, 104, 3, 6, 10, 0));
}

#[test]
fn tick_sorts_then_resolves() {
    let cfg = config(640, 480);
    let g = Gravity::zero();
    let mut set = BallSet::from_balls(vec![
        Ball::new(100, 100, 0, 5, 10, 0),
        Ball::new(100, 120, 0, -5, 10, 0),
    ]);
    set.update_loop(&cfg, &g);
    let b = set.balls();
    // sorted: the lower ball (y = 120) first; after moving to 115 and 105
    // they overlap by 10, are pushed back 5 each and exchange velocities
    assert_eq!((b[0].y, b[0].vy), (120, 5));
    assert_eq!((b[1].y, b[1].vy), (100, -5));
}

#[test]
fn random_population_inside_arena() {
    let cfg = config(640, 480);
    let mut rng = StdRng::seed_from_u64(7);
    let set = BallSet::new(&cfg, None, &mut rng);
    assert_eq!(set.balls().len(), 5);
    for b in set.balls() {
        assert!(5 <= b.radius && b.radius < 20);
        assert!(-10 < b.vx && b.vx < 10 && -10 < b.vy && b.vy < 10);
        assert!(20 <= b.x && b.x < 620 && 20 <= b.y && b.y < 460);
    }
    let first = set.balls()[0];
    assert!(set.balls().iter().any(|b| *b != first));
    let set = BallSet::new(&cfg, Some(12), &mut rng);
    assert_eq!(set.balls().len(), 12);
}

use boids::InitRandoms;
use boids::Universe;

const UNIT: i64 = boids::SCALE;
const PADDING: i64 = 12_500_000;

fn zero_rand() -> InitRandoms {
    InitRandoms { weight: 0, size: 0, x: 0, y: 0, heading: 0, linear: 0, angular: 0 }
}

fn world() -> Universe {
    Universe::new(1000 * UNIT, 1000 * UNIT).unwrap()
}

#[test]
fn solo_drift_moves_straight_up_screen() {
    // One agent in open space, heading 0: the angular speed stays at rest,
    // x never moves, and y falls by the linear speed, which grows by 0.03
    // per tick from 0.2.
    let mut u = world();
    u.add_one_boid_xy(500 * UNIT, 500 * UNIT, zero_rand());
    let mut expected_y: i64 = 500 * UNIT;
    let mut speed: i64 = 200_000;
    for _ in 0..10 {
        u.tick(1);
        speed += 30_000;
        expected_y -= speed;
        assert_eq!(u.boids[0].point.x, 500 * UNIT);
        assert_eq!(u.boids[0].point.y, expected_y);
        assert_eq!(u.boids[0].angular_speed.value, 0);
    }
    assert_eq!(u.boids[0].point.y, 496_350_000);
    assert_eq!(u.boids[0].linear_speed.value, 500_000);
}

#[test]
fn wall_ahead_veers_the_agent_away() {
    // An agent on the left border heading exactly a quarter turn (straight
    // left of screen, square against the wall): wall avoidance fires, the
    // head-on encoded angle veers positively, the angular speed saturates
    // at its ceiling, and the next heading rotates away.
    let mut u = world();
    let rand = InitRandoms { heading: 250_000, ..zero_rand() };
    u.add_one_boid_xy(PADDING, 500 * UNIT, rand);
    assert_eq!(u.boids[0].angle.get(), boids::QUARTER_TURN);
    u.tick(1);
    assert_eq!(u.boids[0].angular_speed.value, 139_626);
    assert_eq!(u.boids[0].angle.get(), boids::QUARTER_TURN + 139_626);
    assert_eq!(u.boids[0].linear_speed.value, 230_000);

    // Just past the quarter turn the encoded angle is small but positive,
    // and the veer is the same way.
    let mut v = world();
    let tilted = InitRandoms { heading: 255_000, ..zero_rand() };
    v.add_one_boid_xy(PADDING, 500 * UNIT, tilted);
    assert_eq!(v.boids[0].angle.get(), 1_602_211);
    v.tick(1);
    assert_eq!(v.boids[0].angular_speed.value, 139_626);
    assert_eq!(v.boids[0].angle.get(), 1_741_837);
}

#[test]
fn a_close_pair_separates() {
    // Two overlapping-size agents five units apart, both heading 0: each
    // sees the other too close on one side and turns away from it, the
    // separation gain minus the opposing cohesion gain.
    let mut u = world();
    u.add_one_boid_xy(500 * UNIT, 500 * UNIT, zero_rand());
    u.add_one_boid_xy(505 * UNIT, 500 * UNIT, zero_rand());
    for b in u.boids.iter_mut() {
        b.body.size = 20 * UNIT;
        b.angular_speed.max = 500_000;
    }
    u.tick(1);
    assert_eq!(u.boids[0].angular_speed.value, 180_000);
    assert_eq!(u.boids[1].angular_speed.value, -180_000);
    assert_eq!(u.boids[0].angle.get(), 180_000);
    assert_eq!(u.boids[1].angle.get(), 6_103_184);
    assert_eq!(u.boids[0].linear_speed.value, 200_000);
    assert_eq!(u.boids[1].linear_speed.value, 200_000);
}

#[test]
fn a_flock_past_four_aligns_the_focal_agent() {
    // Five agents in the cone, all heading an eighth of a turn: alignment
    // fires past the count threshold and cohesion pulls the same way, so
    // the focal heading grows by exactly both gains.
    let mut u = world();
    u.add_one_boid_xy(500 * UNIT, 500 * UNIT, zero_rand());
    let rand = InitRandoms { heading: 125_000, ..zero_rand() };
    for _ in 0..5 {
        u.add_one_boid_xy(500 * UNIT, 450 * UNIT, rand);
    }
    assert_eq!(u.boids[1].angle.get(), 785_398);
    u.tick(1);
    assert_eq!(u.boids[0].angular_speed.value, 90_000);
    assert_eq!(u.boids[0].angle.get(), 90_000);
    assert_eq!(u.boids[0].linear_speed.value, 230_000);
}

#[test]
fn clamping_into_the_canvas_is_idempotent() {
    // A position far outside lands exactly on the padded border, and a
    // second clamp changes nothing.
    let mut u = world();
    u.add_one_boid_xy(1000 * UNIT + 1000 * UNIT, -1000 * UNIT, zero_rand());
    assert_eq!(u.boids[0].point.x, 1000 * UNIT - PADDING);
    assert_eq!(u.boids[0].point.y, PADDING);
    u.add_one_boid_xy(1000 * UNIT - PADDING, PADDING, zero_rand());
    assert_eq!(u.boids[1].point.x, 1000 * UNIT - PADDING);
    assert_eq!(u.boids[1].point.y, PADDING);

    let clamped = boids::fixed::clamp_i64(3_000_000_000, PADDING, 1000 * UNIT - PADDING);
    assert_eq!(clamped, boids::fixed::clamp_i64(clamped, PADDING, 1000 * UNIT - PADDING));
}

#[test]
fn a_cornered_agent_never_leaves_the_canvas() {
    // Initialized on the inner corner heading five eighths of a turn; after
    // any number of ticks the agent stays inside the padded rectangle.
    let mut u = world();
    let rand = InitRandoms { heading: 625_000, ..zero_rand() };
    u.add_one_boid_xy(PADDING, PADDING, rand);
    assert_eq!(u.boids[0].angle.get(), 3_926_990);
    for _ in 0..5 {
        u.tick(1);
        let p = u.boids[0].point;
        assert!(PADDING <= p.x && p.x <= 1000 * UNIT - PADDING);
        assert!(PADDING <= p.y && p.y <= 1000 * UNIT - PADDING);
    }
}

#[test]
fn alone_the_angular_speed_decays_geometrically() {
    // In an empty universe each tick multiplies the angular speed magnitude
    // by 0.85 (rounded down), so it stays under the geometric envelope.
    let mut u = world();
    u.add_one_boid_xy(500 * UNIT, 500 * UNIT, zero_rand());
    u.boids[0].angular_speed.value = 100_000;
    let mut expected: i64 = 100_000;
    let mut envelope_num: i128 = 100_000;
    let mut envelope_den: i128 = 1;
    for _ in 0..5 {
        u.tick(1);
        expected = expected * 85 / 100;
        envelope_num *= 85;
        envelope_den *= 100;
        let value = u.boids[0].angular_speed.value;
        assert_eq!(value, expected);
        assert!((value as i128) * envelope_den <= envelope_num);
    }
    assert_eq!(u.boids[0].angular_speed.value, 44_370);
}

#[test]
fn invariants_hold_across_many_ticks() {
    // A mixed population ticked repeatedly: every agent stays inside the
    // padded rectangle with a normalized heading and capped speeds.
    let mut u = world();
    for k in 0..50u32 {
        let rand = InitRandoms {
            weight: (k as i64 * 131_071) % UNIT,
            size: (k as i64 * 524_287) % UNIT,
            x: (k as i64 * 999_983) % UNIT,
            y: (k as i64 * 777_767) % UNIT,
            heading: (k as i64 * 333_667) % UNIT,
            linear: (k as i64 * 99_991) % UNIT,
            angular: (k as i64 * 65_521) % UNIT,
        };
        u.add_boid(rand);
    }
    for _ in 0..20 {
        u.tick(1);
        for b in &u.boids {
            assert!(PADDING <= b.point.x && b.point.x <= 1000 * UNIT - PADDING);
            assert!(PADDING <= b.point.y && b.point.y <= 1000 * UNIT - PADDING);
            assert!(0 <= b.angle.get() && b.angle.get() < boids::TAU);
            let magnitude = b.angular_speed.value.abs();
            assert!(b.angular_speed.min <= magnitude && magnitude <= b.angular_speed.max);
            assert!(b.linear_speed.min <= b.linear_speed.value);
            assert!(b.linear_speed.value <= b.linear_speed.max);
        }
    }
}

use boids::Angle;
use boids::Boid;
use boids::Canvas;
use boids::InitRandoms;
use boids::Rgb;
use boids::SimError;
use boids::Universe;

const UNIT: i64 = boids::SCALE;
const PADDING: i64 = 12_500_000;

fn zero_rand() -> InitRandoms {
    InitRandoms { weight: 0, size: 0, x: 0, y: 0, heading: 0, linear: 0, angular: 0 }
}

#[test]
fn bad_dimensions_are_rejected() {
    assert!(matches!(Universe::new(0, 1000 * UNIT), Err(SimError::DimensionDomain)));
    assert!(matches!(Universe::new(1000 * UNIT, -5), Err(SimError::DimensionDomain)));
    // Padding reaching half the smaller dimension is rejected too.
    assert!(matches!(Universe::new(20 * UNIT, 1000 * UNIT), Err(SimError::DimensionDomain)));
    assert!(matches!(Canvas::new(100 * UNIT, 100 * UNIT, 0), Err(SimError::DimensionDomain)));
    assert!(matches!(
        Canvas::new(100 * UNIT, 100 * UNIT, 50 * UNIT),
        Err(SimError::DimensionDomain)
    ));
    assert!(Canvas::new(100 * UNIT, 100 * UNIT, 49 * UNIT).is_ok());
}

#[test]
fn a_fresh_universe_is_empty_with_default_padding() {
    let u = Universe::new(1000 * UNIT, 800 * UNIT).unwrap();
    assert_eq!(u.boids.len(), 0);
    assert_eq!(u.canvas.width, 1000 * UNIT);
    assert_eq!(u.canvas.height, 800 * UNIT);
    assert_eq!(u.canvas.padding, PADDING);
}

#[test]
fn ids_are_distinct_and_grow_with_insertion() {
    let mut u = Universe::new(1000 * UNIT, 1000 * UNIT).unwrap();
    for k in 0..10 {
        let rand = InitRandoms { x: 100_000 + k * 50_000, y: 500_000, ..zero_rand() };
        u.add_boid(rand);
    }
    assert_eq!(u.boids.len(), 10);
    for i in 0..10 {
        for j in (i + 1)..10 {
            assert!(u.boids[i].id != u.boids[j].id);
            assert!(u.boids[i].id <= u.boids[j].id);
        }
    }
}

#[test]
fn added_agents_are_red_and_populated_ones_encode_their_turn_rate() {
    let mut u = Universe::new(1000 * UNIT, 1000 * UNIT).unwrap();
    u.add_one_boid_xy(300 * UNIT, 300 * UNIT, zero_rand());
    assert_eq!(u.boids[0].body.color, Rgb { red: 255, green: 0, blue: 0 });
    u.add_boid(InitRandoms { x: 500_000, y: 500_000, ..zero_rand() });
    // An angular draw of zero recovers as zero: no red or blue, full green.
    assert_eq!(u.boids[1].body.color, Rgb { red: 0, green: 180, blue: 0 });
}

#[test]
fn populated_agents_take_the_documented_defaults() {
    let mut u = Universe::new(1000 * UNIT, 1000 * UNIT).unwrap();
    u.add_boid(InitRandoms { x: 500_000, y: 250_000, ..zero_rand() });
    let b = &u.boids[0];
    assert_eq!(b.weight, UNIT);
    assert_eq!(b.body.size, 10 * UNIT);
    assert_eq!(b.point.x, 500 * UNIT);
    assert_eq!(b.point.y, 250 * UNIT);
    assert_eq!(b.angle.get(), 0);
    assert_eq!(b.vision.radius, 100 * UNIT);
    assert_eq!(b.vision.radians.get(), 3_926_990);
    assert_eq!(b.linear_speed.min, 200_000);
    assert_eq!(b.linear_speed.value, 200_000);
    assert_eq!(b.linear_speed.max, 2 * UNIT);
    assert_eq!(b.angular_speed.min, 0);
    assert_eq!(b.angular_speed.value, 0);
    assert_eq!(b.angular_speed.max, 139_626);
    assert_eq!(b.body.width, 15 * UNIT);
}

#[test]
fn populate_fills_the_default_roster() {
    let mut u = Universe::new(1000 * UNIT, 1000 * UNIT).unwrap();
    let mut draws: Vec<InitRandoms> = Vec::new();
    for k in 0..boids::universe::DEFAULT_POPULATION {
        let k = k as i64;
        draws.push(InitRandoms {
            weight: (k * 131_071) % UNIT,
            size: (k * 524_287) % UNIT,
            x: (k * 999_983) % UNIT,
            y: (k * 777_767) % UNIT,
            heading: (k * 333_667) % UNIT,
            linear: (k * 99_991) % UNIT,
            angular: (k * 65_521) % UNIT,
        });
    }
    u.populate(&draws);
    assert_eq!(u.boids.len(), boids::universe::DEFAULT_POPULATION);
    assert_eq!(u.boids.len(), 200);
    for (i, b) in u.boids.iter().enumerate() {
        assert_eq!(b.id as usize, i + 1);
        assert!(UNIT <= b.weight && b.weight < 2 * UNIT);
        assert_eq!(b.vision.radius, 100 * UNIT);
        assert_eq!(b.vision.radians.get(), 3_926_990);
        assert_eq!(b.linear_speed.value, 200_000);
        assert_eq!(b.angular_speed.value, 0);
    }
    u.tick(1);
    assert_eq!(u.boids.len(), 200);
}

#[test]
fn resizing_clamps_the_population() {
    let mut u = Universe::new(1000 * UNIT, 1000 * UNIT).unwrap();
    u.add_one_boid_xy(900 * UNIT, 900 * UNIT, zero_rand());
    assert!(u.set_canvas_dimensions(500 * UNIT, 500 * UNIT).is_ok());
    assert_eq!(u.canvas.width, 500 * UNIT);
    assert_eq!(u.boids[0].point.x, 500 * UNIT - PADDING);
    assert_eq!(u.boids[0].point.y, 500 * UNIT - PADDING);
    // A bad resize is rejected and changes nothing.
    assert_eq!(u.set_canvas_dimensions(0, 500 * UNIT).unwrap_err(), SimError::DimensionDomain);
    assert_eq!(u.canvas.width, 500 * UNIT);
}

#[test]
fn the_visual_angle_chases_the_heading() {
    // An already aligned visual angle stays exactly on the heading.
    let mut a = Boid::new(3);
    a.set_initial_angle(70_000);
    a.update_drawing_angle(1);
    assert_eq!(a.body.angle.get(), 70_000);

    let mut b = Boid::new(1);
    b.set_initial_angle(0);
    b.angle = Angle::new(boids::QUARTER_TURN);
    b.update_drawing_angle(1);
    // One frame moves the visual angle by at most a 45th of a turn.
    assert_eq!(b.body.angle.get(), 139_626);

    // Within range, it snaps exactly onto the heading across the wrap.
    let mut c = Boid::new(2);
    c.set_initial_angle(100);
    c.angle = Angle::new(0);
    c.update_drawing_angle(1);
    assert_eq!(c.body.angle.get(), 0);
}

#[test]
fn the_rendering_triangle_sits_around_the_position() {
    let mut b = Boid::new(1);
    b.set_initial_coordinates(100 * UNIT, 100 * UNIT);
    b.set_initial_angle(0);
    b.body.size = 10 * UNIT;
    b.body.width = 0;
    let (tip, right, left) = b.get_drawing_data();
    assert_eq!(tip, (100 * UNIT, 95_500_000));
    assert_eq!(right, (100 * UNIT, 104_500_000));
    assert_eq!(left, (100 * UNIT, 104_500_000));
}

#[test]
fn recoloring_encodes_the_angular_ceiling() {
    let mut b = Boid::new(1);
    b.angular_speed.max = 139_626;
    b.reset_color();
    assert_eq!(b.body.color, Rgb { red: 0, green: 180, blue: 0 });
    // Twice the base rate recovers as a full draw: full red and blue.
    b.angular_speed.max = 279_252;
    b.reset_color();
    assert_eq!(b.body.color, Rgb { red: 180, green: 0, blue: 180 });
}

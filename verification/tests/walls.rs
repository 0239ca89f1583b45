use boids::Boid;
use boids::Canvas;

const UNIT: i64 = boids::SCALE;

fn canvas_1000() -> Canvas {
    Canvas::new(1000 * UNIT, 1000 * UNIT, 12_500_000).unwrap()
}

fn roamer(x: i64, y: i64, heading: i64, radius: i64) -> Boid {
    let mut b = Boid::new(1);
    b.set_initial_coordinates(x, y);
    b.set_initial_angle(heading);
    b.set_initial_vision(radius, 3_926_990);
    b
}

#[test]
fn open_space_sees_no_wall() {
    let b = roamer(500 * UNIT, 500 * UNIT, 0, 100 * UNIT);
    assert_eq!(b.test_wall_visibility(&canvas_1000()), (false, 0, 0));
}

#[test]
fn one_wall_decides_directly() {
    // Heading just past a quarter turn points left of screen with a little
    // upward drift; the lookahead crosses the left border only, and the
    // encoded angle prescribes a positive turn.
    let b = roamer(12_500_000, 500 * UNIT, 1_602_211, 100 * UNIT);
    let (seen, direction, distance) = b.test_wall_visibility(&canvas_1000());
    assert!(seen);
    assert_eq!(direction, 1);
    assert_eq!(distance, 0);
}

#[test]
fn corners_keep_the_current_turn() {
    let mut b = roamer(20 * UNIT, 20 * UNIT, 785_398, 100 * UNIT);
    b.angular_speed.max = 139_626;
    b.angular_speed.value = 50_000;
    let (seen, direction, distance) = b.test_wall_visibility(&canvas_1000());
    assert!(seen);
    assert_eq!(direction, 1);
    assert_eq!(distance, 7_500_000);
    b.angular_speed.value = -50_000;
    assert_eq!(b.test_wall_visibility(&canvas_1000()), (true, -1, 7_500_000));
}

#[test]
fn the_nearer_of_two_distant_walls_wins() {
    // Away from corners, with the top border much nearer than the left one,
    // the primary tie-break picks the top wall.
    let b = roamer(200 * UNIT, 100 * UNIT, 785_398, 300 * UNIT);
    let (seen, direction, distance) = b.test_wall_visibility(&canvas_1000());
    assert!(seen);
    assert_eq!(direction, 1);
    assert_eq!(distance, 87_500_000);
}

#[test]
fn comparably_near_walls_fall_to_the_arc_tie_break() {
    // Both borders at the same distance: the wall whose encoded angle lies
    // farther from the heading wins; here that is the left wall, whose code
    // sits on the lower half circle, so the turn is negative.
    let b = roamer(200 * UNIT, 200 * UNIT, 785_398, 300 * UNIT);
    let (seen, direction, distance) = b.test_wall_visibility(&canvas_1000());
    assert!(seen);
    assert_eq!(direction, -1);
    assert_eq!(distance, 187_500_000);
}

use boids::Boid;
use boids::Point;
use boids::Side;

const UNIT: i64 = boids::SCALE;

fn watcher(heading: i64) -> Boid {
    let mut b = Boid::new(1);
    b.set_initial_coordinates(500 * UNIT, 500 * UNIT);
    b.set_initial_angle(heading);
    b.set_initial_vision(100 * UNIT, 3_926_990);
    b
}

#[test]
fn a_point_ahead_is_seen_on_the_left_boundary() {
    // Heading 0 points up-screen; a point straight above has bearing 0,
    // which falls on the left half-cone boundary.
    let b = watcher(0);
    let above = Point { x: 500 * UNIT, y: 450 * UNIT };
    assert!(b.test_point_visibility(&above, Side::Both));
    assert!(b.test_point_visibility(&above, Side::Left));
    assert!(!b.test_point_visibility(&above, Side::Right));
}

#[test]
fn east_and_west_fall_on_opposite_sides() {
    let b = watcher(0);
    let east = Point { x: 505 * UNIT, y: 500 * UNIT };
    let west = Point { x: 495 * UNIT, y: 500 * UNIT };
    assert!(b.test_point_visibility(&east, Side::Right));
    assert!(!b.test_point_visibility(&east, Side::Left));
    assert!(b.test_point_visibility(&west, Side::Left));
    assert!(!b.test_point_visibility(&west, Side::Right));
}

#[test]
fn behind_the_agent_is_blind() {
    // Aperture 1.25 half-turns leaves a blind wedge behind; heading 0 looks
    // up-screen, so straight below is centred in the blind wedge.
    let b = watcher(0);
    let behind = Point { x: 500 * UNIT, y: 550 * UNIT };
    assert!(!b.test_point_visibility(&behind, Side::Both));
    assert!(!b.test_point_visibility(&behind, Side::Left));
    assert!(!b.test_point_visibility(&behind, Side::Right));
}

#[test]
fn both_is_the_union_of_left_and_right() {
    let headings: Vec<i64> = vec![0, 785_398, 1_570_796, 3_141_592, 5_497_787];
    let points: Vec<Point> = vec![
        Point { x: 505 * UNIT, y: 500 * UNIT },
        Point { x: 495 * UNIT, y: 502 * UNIT },
        Point { x: 500 * UNIT, y: 450 * UNIT },
        Point { x: 561 * UNIT, y: 433 * UNIT },
        Point { x: 700 * UNIT, y: 700 * UNIT },
    ];
    for h in headings {
        let b = watcher(h);
        for p in &points {
            let both = b.test_point_visibility(p, Side::Both);
            let left = b.test_point_visibility(p, Side::Left);
            let right = b.test_point_visibility(p, Side::Right);
            assert_eq!(both, left || right);
        }
    }
}

#[test]
fn beyond_the_sight_range_nothing_is_seen() {
    let b = watcher(4_712_388);
    let far = Point { x: 500 * UNIT + 100 * UNIT + 1, y: 500 * UNIT };
    assert!(!b.test_point_visibility(&far, Side::Both));
    assert!(!b.test_point_visibility(&far, Side::Left));
    assert!(!b.test_point_visibility(&far, Side::Right));
}

#[test]
fn the_sight_range_bound_is_closed() {
    // A point at exactly the sight range passes the distance test; with the
    // heading turned toward it, it is visible.
    let b = watcher(4_712_388);
    let on_limit = Point { x: 500 * UNIT + 100 * UNIT, y: 500 * UNIT };
    assert!(b.test_point_visibility(&on_limit, Side::Both));
}

#[test]
fn filtering_drops_self_and_keeps_order() {
    let b = watcher(0);
    let mut other_east = Boid::new(2);
    other_east.set_initial_coordinates(505 * UNIT, 500 * UNIT);
    let mut other_far = Boid::new(3);
    other_far.set_initial_coordinates(900 * UNIT, 500 * UNIT);
    let mut other_west = Boid::new(4);
    other_west.set_initial_coordinates(495 * UNIT, 500 * UNIT);
    let candidates: Vec<Boid> = vec![b, other_east, other_far, other_west];
    let seen = b.filter_points_by_visibility(&candidates, Side::Both);
    assert_eq!(seen.len(), 2);
    assert_eq!(seen[0].id, 2);
    assert_eq!(seen[1].id, 4);
}

use boids::Angle;
use boids::HALF_TURN;
use boids::QUARTER_TURN;
use boids::TAU;

#[test]
fn normalize_wraps_into_the_circle() {
    assert_eq!(Angle::new(0).get(), 0);
    assert_eq!(Angle::new(TAU).get(), 0);
    assert_eq!(Angle::new(TAU + 5).get(), 5);
    assert_eq!(Angle::new(-1).get(), TAU - 1);
    assert_eq!(Angle::new(-TAU).get(), 0);
    assert_eq!(Angle::new(3 * TAU + 17).get(), 17);
    assert_eq!(Angle::new(i64::MIN).get(), i64::MIN.rem_euclid(TAU));
}

#[test]
fn normalize_is_idempotent() {
    let samples: Vec<i64> = vec![
        0,
        1,
        -1,
        TAU,
        -TAU,
        TAU - 1,
        7_000_000,
        -7_000_000,
        i64::MAX,
        i64::MIN,
        123_456_789,
    ];
    for v in samples {
        let once = Angle::new(v);
        let twice = Angle::new(once.get());
        assert_eq!(once.get(), twice.get());
    }
}

#[test]
fn neg_is_involutive() {
    let samples: Vec<i64> = vec![0, 1, 123, QUARTER_TURN, HALF_TURN, TAU - 1];
    for v in samples {
        let a = Angle::new(v);
        assert_eq!(a.neg().neg().get(), a.get());
    }
    assert_eq!(Angle::new(0).neg().get(), 0);
    assert_eq!(Angle::new(123).neg().get(), TAU - 123);
}

#[test]
fn signum_splits_the_circle() {
    assert_eq!(Angle::new(0).signum(), 0);
    assert_eq!(Angle::new(HALF_TURN).signum(), 0);
    assert_eq!(Angle::new(1).signum(), 1);
    assert_eq!(Angle::new(HALF_TURN - 1).signum(), 1);
    assert_eq!(Angle::new(HALF_TURN + 1).signum(), -1);
    assert_eq!(Angle::new(TAU - 1).signum(), -1);
}

#[test]
fn add_and_sub_wrap() {
    let a = Angle::new(TAU - 10);
    let b = Angle::new(20);
    assert_eq!(a.add(b).get(), 10);
    assert_eq!(b.sub(a).get(), 30);
    assert_eq!(a.sub(b).get(), TAU - 30);
    assert_eq!(a.add_i64(10).get(), 0);
}

#[test]
fn min_max_compare_raw_scalars() {
    let a = Angle::new(100);
    assert_eq!(a.min(50), 50);
    assert_eq!(a.min(150), 100);
    assert_eq!(a.max(50), 100);
    assert_eq!(a.max(150), 150);
}

#[test]
fn arc_distance_is_the_minimal_arc() {
    assert_eq!(Angle::new(0).arc_distance(Angle::new(TAU - 1)), 1);
    assert_eq!(Angle::new(TAU - 1).arc_distance(Angle::new(0)), 1);
    assert_eq!(Angle::new(HALF_TURN).arc_distance(Angle::new(0)), HALF_TURN);
    assert_eq!(Angle::new(100).arc_distance(Angle::new(40)), 60);
}

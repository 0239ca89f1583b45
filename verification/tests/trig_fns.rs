use boids::trig::atan2;
use boids::trig::isqrt;
use boids::Angle;
use boids::HALF_TURN;
use boids::QUARTER_TURN;
use boids::SCALE;

#[test]
fn sine_is_exact_at_quarter_turns() {
    assert_eq!(Angle::new(0).sin(), 0);
    assert_eq!(Angle::new(QUARTER_TURN).sin(), SCALE);
    assert_eq!(Angle::new(HALF_TURN).sin(), 0);
    assert_eq!(Angle::new(HALF_TURN + QUARTER_TURN).sin(), -SCALE);
}

#[test]
fn cosine_is_exact_at_quarter_turns() {
    assert_eq!(Angle::new(0).cos(), SCALE);
    assert_eq!(Angle::new(QUARTER_TURN).cos(), 0);
    assert_eq!(Angle::new(HALF_TURN).cos(), -SCALE);
    assert_eq!(Angle::new(HALF_TURN + QUARTER_TURN).cos(), 0);
}

#[test]
fn sine_stays_within_one_unit() {
    let mut a: i64 = 0;
    while a < boids::TAU {
        let s = Angle::new(a).sin();
        let c = Angle::new(a).cos();
        assert!(-SCALE <= s && s <= SCALE);
        assert!(-SCALE <= c && c <= SCALE);
        a += 98_765;
    }
}

#[test]
fn arc_tangent_is_exact_on_axes_and_diagonals() {
    assert_eq!(atan2(0, 0), 0);
    assert_eq!(atan2(0, 5_000_000), 0);
    assert_eq!(atan2(1_000_000, 0), QUARTER_TURN);
    assert_eq!(atan2(0, -3_000_000), HALF_TURN);
    assert_eq!(atan2(-1_000_000, 0), -QUARTER_TURN);
    assert_eq!(atan2(5, 5), 785_398);
    assert_eq!(atan2(-7, 7), -785_398);
}

#[test]
fn integer_square_root_brackets() {
    assert_eq!(isqrt(0), 0);
    assert_eq!(isqrt(1), 1);
    assert_eq!(isqrt(15), 3);
    assert_eq!(isqrt(16), 4);
    assert_eq!(isqrt(1_000_000_000_000), 1_000_000);
    assert_eq!(isqrt(u64::MAX), 4_294_967_295);
}

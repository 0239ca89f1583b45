use boids::grid_split;
use boids::Boid;
use boids::Canvas;

const UNIT: i64 = boids::SCALE;

fn placed(id: u32, x_units: i64, y_units: i64) -> Boid {
    let mut b = Boid::new(id);
    b.set_initial_coordinates(x_units * UNIT, y_units * UNIT);
    b.set_initial_angle(0);
    b.set_initial_vision(100 * UNIT, 3_926_990);
    b
}

#[test]
fn hundred_agents_make_a_ten_by_ten_grid() {
    let canvas = Canvas::new(1000 * UNIT, 1000 * UNIT, 12_500_000).unwrap();
    let mut flock: Vec<Boid> = Vec::new();
    flock.push(placed(1, 505, 505));
    for k in 2..=100u32 {
        let x = 20 + ((k as i64) * 97) % 950;
        let y = 20 + ((k as i64) * 53) % 950;
        flock.push(placed(k, x, y));
    }
    let (map, cells) = grid_split(&canvas, &flock);

    assert_eq!(cells.len(), 10);
    for column in &cells {
        assert_eq!(column.len(), 10);
    }
    assert_eq!(map.get(&1), Some(&(5usize, 5usize)));

    // The home-cell list of the agent at (505, 505) is exactly the agents
    // whose home cells lie in columns and rows 4 to 6.
    let candidates = &cells[5][5];
    for b in &flock {
        let col = (b.point.x / (100 * UNIT)) as i64;
        let row = (b.point.y / (100 * UNIT)) as i64;
        let near = (col - 5).abs() <= 1 && (row - 5).abs() <= 1;
        let listed = candidates.iter().any(|c| c.id == b.id);
        assert_eq!(listed, near);
    }
}

#[test]
fn nearby_agents_share_a_candidate_list() {
    // Two agents within one cell side of each other on both axes always
    // appear in each other's home cell.
    let canvas = Canvas::new(1000 * UNIT, 1000 * UNIT, 12_500_000).unwrap();
    let a = placed(1, 399, 500);
    let b = placed(2, 401, 410);
    let flock: Vec<Boid> = vec![a, b];
    let (map, cells) = grid_split(&canvas, &flock);
    let &(ca, ra) = map.get(&1).unwrap();
    let &(cb, rb) = map.get(&2).unwrap();
    assert!(cells[ca][ra].iter().any(|c| c.id == 2));
    assert!(cells[cb][rb].iter().any(|c| c.id == 1));
}

#[test]
fn the_cell_side_never_degenerates() {
    // All sight ranges far under one canvas unit: the grid still uses a
    // cell side of one unit.
    let canvas = Canvas::new(10 * UNIT, 10 * UNIT, 1 * UNIT).unwrap();
    let mut a = Boid::new(1);
    a.set_initial_coordinates(5 * UNIT, 5 * UNIT);
    a.set_initial_vision(1, 3_926_990);
    let flock: Vec<Boid> = vec![a];
    let (map, cells) = grid_split(&canvas, &flock);
    assert_eq!(cells.len(), 10);
    assert_eq!(cells[0].len(), 10);
    assert_eq!(map.get(&1), Some(&(5usize, 5usize)));
}

//! The population and the per-tick driver.
//!
//! Each tick snapshots the agents, buckets the snapshot into a uniform grid
//! whose cell side is the largest sight range, and hands every agent the
//! contents of its own cell — a superset of everything it could see,
//! because each agent is written into its cell and the eight around it.

use vstd::prelude::*;
use std::collections::HashMap;
use crate::boid::Boid;
use crate::boid::Canvas;
use crate::boid::InitRandoms;
use crate::boid::Point;
use crate::boid::Rgb;
use crate::boid::SimError;
use crate::boid::MAX_DIM;
use crate::fixed::SCALE;
use crate::fixed::abs_spec;
use crate::fixed::min_spec;

verus! {

broadcast use vstd::std_specs::hash::group_hash_axioms;

/// The largest sight range of a group of agents.
pub open spec fn max_radius(s: Seq<Boid>) -> int
    decreases s.len(),
{
    if s.len() == 0 {
        0
    } else {
        let rest = max_radius(s.drop_last());
        if s.last().vision.radius >= rest {
            s.last().vision.radius as int
        } else {
            rest
        }
    }
}

/// The side of a grid cell: the largest sight range, floored at one canvas
/// unit so the grid never degenerates.
pub open spec fn grid_scale(s: Seq<Boid>) -> int {
    if max_radius(s) >= SCALE as int {
        max_radius(s)
    } else {
        SCALE as int
    }
}

/// How many columns the grid has: the width in cell sides, rounded up.
pub open spec fn grid_cols(canvas: Canvas, scale: int) -> int {
    (canvas.width + scale - 1) / scale
}

/// How many rows the grid has.
pub open spec fn grid_rows(canvas: Canvas, scale: int) -> int {
    (canvas.height + scale - 1) / scale
}

/// The column of the agent's home cell.
pub open spec fn home_col(b: Boid, canvas: Canvas, scale: int) -> int {
    min_spec(b.point.x as int, canvas.width as int) / scale
}

/// The row of the agent's home cell.
pub open spec fn home_row(b: Boid, canvas: Canvas, scale: int) -> int {
    min_spec(b.point.y as int, canvas.height as int) / scale
}

/// Whether an agent's home cell lies within one cell of `(c, r)`: the agent
/// is then written into cell `(c, r)`.
pub open spec fn cell_near(b: Boid, canvas: Canvas, scale: int, c: int, r: int) -> bool {
    abs_spec(home_col(b, canvas, scale) - c) <= 1 && abs_spec(home_row(b, canvas, scale) - r) <= 1
}

/// The candidate list an agent receives on a tick: every agent of the
/// snapshot bucketed into its home cell, in snapshot order.
pub open spec fn candidates_of(s: Seq<Boid>, canvas: Canvas, me: Boid) -> Seq<Boid> {
    s.filter(
        |b: Boid|
            cell_near(
                b,
                canvas,
                grid_scale(s),
                home_col(me, canvas, grid_scale(s)),
                home_row(me, canvas, grid_scale(s)),
            ),
    )
}

/// The largest sight range of a well-formed group is bounded.
pub proof fn lemma_grid_scale_bounds(s: Seq<Boid>)
    requires
        forall|i: int| 0 <= i < s.len() ==> (#[trigger] s[i]).wf_state(),
    ensures
        0 <= max_radius(s) <= MAX_DIM,
        SCALE as int <= grid_scale(s) <= MAX_DIM,
    decreases s.len(),
{
    if s.len() > 0 {
        assert(forall|i: int| 0 <= i < s.drop_last().len() ==> #[trigger] s.drop_last()[i] == s[i]);
        lemma_grid_scale_bounds(s.drop_last());
        assert(s.last() == s[s.len() - 1]);
    }
}

/// A bounded coordinate falls in a grid column, and the grid is small.
proof fn lemma_home_in_grid(x: int, dim: int, scale: int)
    requires
        0 < x < dim <= MAX_DIM,
        SCALE as int <= scale <= MAX_DIM,
    ensures
        0 <= min_spec(x, dim) / scale < (dim + scale - 1) / scale,
        1 <= (dim + scale - 1) / scale <= 1_000_001,
{
    vstd::arithmetic::div_mod::lemma_div_pos_is_pos(x, scale);
    vstd::arithmetic::div_mod::lemma_div_is_ordered(x, dim - 1, scale);
    vstd::arithmetic::div_mod::lemma_hoist_over_denominator(dim - 1, 1, scale as nat);
    vstd::arithmetic::div_mod::lemma_div_is_ordered(scale, dim + scale - 1, scale);
    vstd::arithmetic::div_mod::lemma_div_multiples_vanish(1, scale);
    assert(dim + scale - 1 <= 1_000_001 * scale) by (nonlinear_arith)
        requires
            dim <= MAX_DIM,
            SCALE as int <= scale,
            MAX_DIM == 1_000_000_000_000,
            SCALE == 1_000_000,
    ;
    vstd::arithmetic::div_mod::lemma_div_is_ordered(dim + scale - 1, 1_000_001 * scale, scale);
    vstd::arithmetic::div_mod::lemma_div_multiples_vanish(1_000_001, scale);
}

/// Agents within one cell side of each other on both axes land within one
/// grid step of each other, so each stands in the other's candidate list:
/// the index is complete.
pub proof fn lemma_grid_complete(s: Seq<Boid>, canvas: Canvas, i: int, j: int)
    requires
        canvas.wf(),
        forall|k: int|
            0 <= k < s.len() ==> (#[trigger] s[k]).wf_state() && s[k].in_bounds(canvas),
        0 <= i < s.len(),
        0 <= j < s.len(),
        abs_spec(s[i].point.x - s[j].point.x) <= grid_scale(s),
        abs_spec(s[i].point.y - s[j].point.y) <= grid_scale(s),
    ensures
        candidates_of(s, canvas, s[i]).contains(s[j]),
{
    let scale = grid_scale(s);
    lemma_grid_scale_bounds(s);
    lemma_axis_near(s[j].point.x as int, s[i].point.x as int, canvas.width as int, scale);
    lemma_axis_near(s[j].point.y as int, s[i].point.y as int, canvas.height as int, scale);
    let pred = |b: Boid|
        cell_near(b, canvas, scale, home_col(s[i], canvas, scale), home_row(s[i], canvas, scale));
    assert(pred(s[j]));
    Seq::lemma_filter_contains(s, pred, j);
}

/// Coordinates within one cell side of each other have home offsets within
/// one grid step.
proof fn lemma_axis_near(a: int, b: int, dim: int, scale: int)
    requires
        0 < a < dim,
        0 < b < dim,
        SCALE as int <= scale,
        abs_spec(a - b) <= scale,
    ensures
        abs_spec(min_spec(a, dim) / scale - min_spec(b, dim) / scale) <= 1,
{
    let qa = a / scale;
    let qb = b / scale;
    if a <= b {
        vstd::arithmetic::div_mod::lemma_div_is_ordered(a, b, scale);
        vstd::arithmetic::div_mod::lemma_div_is_ordered(b, a + scale, scale);
        vstd::arithmetic::div_mod::lemma_hoist_over_denominator(a, 1, scale as nat);
    } else {
        vstd::arithmetic::div_mod::lemma_div_is_ordered(b, a, scale);
        vstd::arithmetic::div_mod::lemma_div_is_ordered(a, b + scale, scale);
        vstd::arithmetic::div_mod::lemma_hoist_over_denominator(b, 1, scale as nat);
    }
}

/// Buckets a snapshot into the uniform grid.  Returns the sidecar map from
/// each agent's id to its home cell, and the grid itself: each agent is
/// written into its home cell and every adjacent cell that exists, so the
/// home-cell list of an agent holds everything within one cell side.
pub fn grid_split(canvas: &Canvas, boids: &Vec<Boid>) -> (r: (
    HashMap<u32, (usize, usize)>,
    Vec<Vec<Vec<Boid>>>,
))
    requires
        canvas.wf(),
        forall|i: int|
            0 <= i < boids@.len() ==> (#[trigger] boids@[i]).wf_state() && boids@[i].in_bounds(
                *canvas,
            ),
        forall|i: int, j: int|
            0 <= i < j < boids@.len() ==> boids@[i].id != boids@[j].id,
    ensures
        r.1@.len() == grid_cols(*canvas, grid_scale(boids@)),
        forall|c: int|
            0 <= c < r.1@.len() ==> (#[trigger] r.1@[c])@.len() == grid_rows(
                *canvas,
                grid_scale(boids@),
            ),
        forall|c: int, w: int|
            0 <= c < r.1@.len() && 0 <= w < grid_rows(*canvas, grid_scale(boids@)) ==> (
            #[trigger] r.1@[c]@[w])@ == boids@.filter(
                |b: Boid| cell_near(b, *canvas, grid_scale(boids@), c, w),
            ),
        forall|i: int|
            0 <= i < boids@.len() ==> {
                &&& r.0@.contains_key((#[trigger] boids@[i]).id)
                &&& r.0@[boids@[i].id] == (
                    home_col(boids@[i], *canvas, grid_scale(boids@)) as usize,
                    home_row(boids@[i], *canvas, grid_scale(boids@)) as usize,
                )
            },
{
    let ghost all = boids@;

    let mut radius: i64 = 0;
    let mut k: usize = 0;
    while k < boids.len()
        invariant
            k <= all.len(),
            radius == max_radius(all.subrange(0, k as int)),
            forall|i: int|
                0 <= i < all.len() ==> (#[trigger] all[i]).wf_state() && all[i].in_bounds(*canvas),
            0 <= radius <= MAX_DIM,
            all == boids@,
        decreases all.len() - k,
    {
        proof {
            let pre = all.subrange(0, k as int);
            let cur = all.subrange(0, k + 1);
            assert(cur.drop_last() =~= pre);
            assert(cur.last() == all[k as int]);
        }
        if boids[k].vision.radius > radius {
            radius = boids[k].vision.radius;
        }
        k = k + 1;
    }
    proof {
        assert(all.subrange(0, all.len() as int) =~= all);
    }
    let scale: i64 = if radius >= SCALE {
        radius
    } else {
        SCALE
    };
    proof {
        lemma_grid_scale_bounds(all);
        lemma_home_in_grid(1, canvas.width as int, scale as int);
        lemma_home_in_grid(1, canvas.height as int, scale as int);
    }
    let nb_columns: usize = ((canvas.width + scale - 1) / scale) as usize;
    let nb_rows: usize = ((canvas.height + scale - 1) / scale) as usize;

    let mut cells: Vec<Vec<Vec<Boid>>> = Vec::new();
    while cells.len() < nb_columns
        invariant
            cells@.len() <= nb_columns,
            forall|c: int|
                0 <= c < cells@.len() ==> (#[trigger] cells@[c])@.len() == nb_rows && forall|w: int|
                    0 <= w < nb_rows ==> (#[trigger] cells@[c]@[w])@ == Seq::<Boid>::empty(),
        decreases nb_columns - cells@.len(),
    {
        let mut column: Vec<Vec<Boid>> = Vec::new();
        while column.len() < nb_rows
            invariant
                column@.len() <= nb_rows,
                forall|w: int|
                    0 <= w < column@.len() ==> (#[trigger] column@[w])@ == Seq::<Boid>::empty(),
            decreases nb_rows - column@.len(),
        {
            column.push(Vec::new());
        }
        cells.push(column);
    }

    let mut map: HashMap<u32, (usize, usize)> = HashMap::new();
    proof {
        assert(forall|c: int, w: int|
            0 <= c < nb_columns && 0 <= w < nb_rows ==> (#[trigger] cells@[c]@[w])@
                =~= all.subrange(0, 0).filter(
                |b: Boid| cell_near(b, *canvas, scale as int, c, w),
            )) by {
            reveal(Seq::filter);
        }
    }
    let mut j: usize = 0;
    while j < boids.len()
        invariant
            j <= all.len(),
            all == boids@,
            canvas.wf(),
            SCALE <= scale <= MAX_DIM,
            scale as int == grid_scale(all),
            nb_columns == grid_cols(*canvas, scale as int),
            nb_rows == grid_rows(*canvas, scale as int),
            1 <= nb_columns <= 1_000_001,
            1 <= nb_rows <= 1_000_001,
            forall|i: int|
                0 <= i < all.len() ==> (#[trigger] all[i]).wf_state() && all[i].in_bounds(*canvas),
            forall|i: int, jj: int| 0 <= i < jj < all.len() ==> all[i].id != all[jj].id,
            cells@.len() == nb_columns,
            forall|c: int| 0 <= c < nb_columns ==> (#[trigger] cells@[c])@.len() == nb_rows,
            forall|c: int, w: int|
                0 <= c < nb_columns && 0 <= w < nb_rows ==> (#[trigger] cells@[c]@[w])@
                    == all.subrange(0, j as int).filter(
                    |b: Boid| cell_near(b, *canvas, scale as int, c, w),
                ),
            forall|i: int|
                0 <= i < j ==> {
                    &&& map@.contains_key((#[trigger] all[i]).id)
                    &&& map@[all[i].id] == (
                        home_col(all[i], *canvas, scale as int) as usize,
                        home_row(all[i], *canvas, scale as int) as usize,
                    )
                },
        decreases all.len() - j,
    {
        let b = boids[j];
        proof {
            lemma_home_in_grid(b.point.x as int, canvas.width as int, scale as int);
            lemma_home_in_grid(b.point.y as int, canvas.height as int, scale as int);
        }
        let max_x = if b.point.x <= canvas.width {
            b.point.x
        } else {
            canvas.width
        };
        let max_y = if b.point.y <= canvas.height {
            b.point.y
        } else {
            canvas.height
        };
        let column: usize = (max_x / scale) as usize;
        let row: usize = (max_y / scale) as usize;
        proof {
            assert(column as int == home_col(b, *canvas, scale as int));
            assert(row as int == home_row(b, *canvas, scale as int));
        }
        let ghost prev = cells@;

        if column >= 1 {
            if row >= 1 {
                cells[column - 1][row - 1].push(b);
            }
            cells[column - 1][row].push(b);
            if row + 1 < nb_rows {
                cells[column - 1][row + 1].push(b);
            }
        }
        if row >= 1 {
            cells[column][row - 1].push(b);
        }
        cells[column][row].push(b);
        if row + 1 < nb_rows {
            cells[column][row + 1].push(b);
        }
        if column + 1 < nb_columns {
            if row >= 1 {
                cells[column + 1][row - 1].push(b);
            }
            cells[column + 1][row].push(b);
            if row + 1 < nb_rows {
                cells[column + 1][row + 1].push(b);
            }
        }

        proof {
            assert forall|c: int, w: int| 0 <= c < nb_columns && 0 <= w < nb_rows implies (
            #[trigger] cells@[c]@[w])@ == all.subrange(0, j + 1).filter(
                |b2: Boid| cell_near(b2, *canvas, scale as int, c, w),
            ) by {
                let pred = |b2: Boid| cell_near(b2, *canvas, scale as int, c, w);
                let pre = all.subrange(0, j as int);
                let cur = all.subrange(0, j + 1);
                assert(cur.drop_last() =~= pre);
                assert(cur.last() == b);
                reveal(Seq::filter);
                if cell_near(b, *canvas, scale as int, c, w) {
                    assert(cells@[c]@[w]@ == prev[c]@[w]@.push(b));
                } else {
                    assert(cells@[c]@[w]@ == prev[c]@[w]@);
                }
            }
        }
        map.insert(b.id, (column, row));
        j = j + 1;
    }
    proof {
        assert(all.subrange(0, all.len() as int) =~= all);
    }
    (map, cells)
}

/// How a freshly populated agent relates to the draws that made it: the
/// given id, weight one plus the boost, the default vision cone and speed
/// envelopes scaled by the draws, the default steering gains, the heading
/// and visual angle from the heading draw, the body sized and colored from
/// its draws, and the randomly placed position clamped into the padded
/// rectangle.
pub open spec fn initialized_from(b: Boid, canvas: Canvas, id: u32, rand: InitRandoms) -> bool {
    &&& b.id == id
    &&& b.weight == SCALE + rand.weight
    &&& b.body.size == 10 * SCALE + rand.size * 15
    &&& b.angle@ == crate::angle::norm(rand.heading as int * crate::fixed::TAU / (SCALE as int))
    &&& b.body.angle == b.angle
    &&& b.vision.radius == crate::boid::VISION_RADIUS
    &&& b.vision.radians@ == crate::boid::VISION_APERTURE
    &&& b.linear_speed == (crate::boid::Speed {
        min: crate::boid::LINEAR_SPEED_FLOOR,
        max: (2 * SCALE + rand.linear) as i64,
        value: crate::boid::LINEAR_SPEED_FLOOR,
    })
    &&& b.angular_speed == (crate::boid::Speed {
        min: 0,
        max: (crate::boid::TURN_RATE as int * (rand.angular + SCALE) / (SCALE as int)) as i64,
        value: 0,
    })
    &&& b.body.width == 5 * SCALE + (SCALE - rand.linear) * 10
    &&& b.body.color == crate::boid::color_of_ceiling(b.angular_speed.max as int)
    &&& b.behaviors == (crate::boid::Behaviors {
        avoid_obstacles: crate::boid::K_OBSTACLE,
        avoid_entity: crate::boid::K_AVOID,
        follow_group: crate::boid::K_ALIGN,
        go_to_group: crate::boid::K_COHERE,
    })
    &&& b.point.x == crate::fixed::clamp_spec(
        rand.x as int * canvas.width / (SCALE as int),
        canvas.padding as int,
        canvas.width - canvas.padding,
    )
    &&& b.point.y == crate::fixed::clamp_spec(
        rand.y as int * canvas.height / (SCALE as int),
        canvas.padding as int,
        canvas.height - canvas.padding,
    )
}

/// The number of agents a fresh universe is given.
pub const DEFAULT_POPULATION: usize = 200;

/// The canvas padding a fresh universe uses: 12.5 canvas units.
pub const DEFAULT_PADDING: i64 = 12_500_000;

/// The population and its enclosing canvas; identities for new agents come
/// from a counter the universe owns, monotonically increasing and never
/// reused.
pub struct Universe {
    pub canvas: Canvas,
    pub boids: Vec<Boid>,
    /// The id the next agent will receive; above every id already handed
    /// out.
    pub next_id: u32,
}

impl Universe {
    /// The canvas is well formed, every agent is well formed and inside the
    /// padded rectangle, ids grow strictly with insertion order, and the
    /// counter stands above them all.
    pub open spec fn wf(&self) -> bool {
        &&& self.canvas.wf()
        &&& forall|i: int|
            0 <= i < self.boids@.len() ==> (#[trigger] self.boids@[i]).wf_state()
                && self.boids@[i].in_bounds(self.canvas)
        &&& forall|i: int|
            0 <= i < self.boids@.len() ==> (#[trigger] self.boids@[i]).id < self.next_id
        &&& forall|i: int, j: int|
            0 <= i < j < self.boids@.len() ==> self.boids@[i].id < self.boids@[j].id
    }

    /// Agent ids are pairwise distinct, and non-decreasing in insertion
    /// order: they grow strictly along the vector.
    pub proof fn lemma_ids_distinct_monotone(&self)
        requires
            self.wf(),
        ensures
            forall|i: int, j: int|
                0 <= i < j < self.boids@.len() ==> self.boids@[i].id != self.boids@[j].id
                    && self.boids@[i].id <= self.boids@[j].id,
    {
    }

    /// The population invariants, spelled out: every agent stands inside
    /// the padded rectangle, its heading is normalized, its angular speed
    /// magnitude and its linear speed lie within their envelopes.
    pub proof fn lemma_population_invariants(&self)
        requires
            self.wf(),
        ensures
            forall|i: int|
                0 <= i < self.boids@.len() ==> {
                    let b = #[trigger] self.boids@[i];
                    &&& self.canvas.padding <= b.point.x <= self.canvas.width
                        - self.canvas.padding
                    &&& self.canvas.padding <= b.point.y <= self.canvas.height
                        - self.canvas.padding
                    &&& 0 <= b.angle@ < crate::fixed::TAU
                    &&& b.angular_speed.min <= abs_spec(b.angular_speed.value as int)
                        <= b.angular_speed.max
                    &&& b.linear_speed.min <= b.linear_speed.value <= b.linear_speed.max
                },
    {
    }

    /// A universe over a canvas of the given dimensions with the default
    /// padding, rejected exactly when the dimensions are bad; the host
    /// then supplies `DEFAULT_POPULATION` rows of draws to `populate`,
    /// since the random source is an outside collaborator.
    pub fn new(width: i64, height: i64) -> (r: Result<Universe, SimError>)
        requires
            width <= MAX_DIM,
            height <= MAX_DIM,
        ensures
            r is Ok <==> (Canvas { width, height, padding: DEFAULT_PADDING }).wf(),
            r is Ok ==> {
                &&& r->Ok_0.wf()
                &&& r->Ok_0.canvas == (Canvas { width, height, padding: DEFAULT_PADDING })
                &&& r->Ok_0.boids@.len() == 0
            },
            r is Err ==> r->Err_0 == SimError::DimensionDomain,
    {
        match Canvas::new(width, height, DEFAULT_PADDING) {
            Ok(canvas) => Ok(Universe { canvas, boids: Vec::new(), next_id: 1 }),
            Err(e) => Err(e),
        }
    }

    /// Adds one agent: a fresh id, the given position (a zero position is
    /// replaced by a random one, like every other zero field), the still-
    /// zero fields filled from the draws, the position clamped into the
    /// padded rectangle, and a red body.
    pub fn add_one_boid_xy(&mut self, x: i64, y: i64, rand: InitRandoms)
        requires
            old(self).wf(),
            rand.wf(),
            old(self).next_id < 0xffff_ffff,
        ensures
            final(self).wf(),
            final(self).canvas == old(self).canvas,
            final(self).next_id == old(self).next_id + 1,
            final(self).boids@.len() == old(self).boids@.len() + 1,
            forall|i: int|
                0 <= i < old(self).boids@.len() ==> final(self).boids@[i] == old(self).boids@[i],
            ({
                let b = final(self).boids@.last();
                &&& b.id == old(self).next_id
                &&& b.weight == SCALE + rand.weight
                &&& b.body.size == 10 * SCALE + rand.size * 15
                &&& b.angle@ == crate::angle::norm(rand.heading as int * crate::fixed::TAU / (
                SCALE as int))
                &&& b.body.angle == b.angle
                &&& b.vision.radius == crate::boid::VISION_RADIUS
                &&& b.vision.radians@ == crate::boid::VISION_APERTURE
                &&& b.linear_speed.min == crate::boid::LINEAR_SPEED_FLOOR
                &&& b.linear_speed.value == crate::boid::LINEAR_SPEED_FLOOR
                &&& b.linear_speed.max == 2 * SCALE + rand.linear
                &&& b.angular_speed.min == 0
                &&& b.angular_speed.value == 0
                &&& b.angular_speed.max == (crate::boid::TURN_RATE as int * (rand.angular + SCALE)
                    / (SCALE as int)) as i64
                &&& b.body.width == 5 * SCALE + (SCALE - rand.linear) * 10
                &&& b.body.color == (Rgb { red: 255, green: 0, blue: 0 })
                &&& b.point.x == crate::fixed::clamp_spec(
                    if x == 0 && y == 0 {
                        rand.x as int * old(self).canvas.width / (SCALE as int)
                    } else {
                        x as int
                    },
                    old(self).canvas.padding as int,
                    old(self).canvas.width - old(self).canvas.padding,
                )
                &&& b.point.y == crate::fixed::clamp_spec(
                    if x == 0 && y == 0 {
                        rand.y as int * old(self).canvas.height / (SCALE as int)
                    } else {
                        y as int
                    },
                    old(self).canvas.padding as int,
                    old(self).canvas.height - old(self).canvas.padding,
                )
            }),
    {
        let mut boid = Boid::new(self.next_id);
        self.next_id = self.next_id + 1;
        boid.set_initial_coordinates(x, y);
        boid.set_all_initial(&self.canvas, &rand);
        let clamped_x = crate::fixed::clamp_i64(
            boid.point.x,
            self.canvas.padding,
            self.canvas.width - self.canvas.padding,
        );
        let clamped_y = crate::fixed::clamp_i64(
            boid.point.y,
            self.canvas.padding,
            self.canvas.height - self.canvas.padding,
        );
        boid.set_initial_coordinates(clamped_x, clamped_y);
        boid.body.color = Rgb { red: 255, green: 0, blue: 0 };
        self.boids.push(boid);
    }

    /// Adds one agent of the initial population: a fresh id, every field
    /// filled from the draws, the position clamped into the padded
    /// rectangle, and the body colored from its angular ceiling.
    pub fn add_boid(&mut self, rand: InitRandoms)
        requires
            old(self).wf(),
            rand.wf(),
            old(self).next_id < 0xffff_ffff,
        ensures
            final(self).wf(),
            final(self).canvas == old(self).canvas,
            final(self).next_id == old(self).next_id + 1,
            final(self).boids@.len() == old(self).boids@.len() + 1,
            forall|i: int|
                0 <= i < old(self).boids@.len() ==> final(self).boids@[i] == old(self).boids@[i],
            initialized_from(
                final(self).boids@.last(),
                old(self).canvas,
                old(self).next_id,
                rand,
            ),
    {
        let mut boid = Boid::new(self.next_id);
        self.next_id = self.next_id + 1;
        boid.set_all_initial(&self.canvas, &rand);
        let clamped_x = crate::fixed::clamp_i64(
            boid.point.x,
            self.canvas.padding,
            self.canvas.width - self.canvas.padding,
        );
        let clamped_y = crate::fixed::clamp_i64(
            boid.point.y,
            self.canvas.padding,
            self.canvas.height - self.canvas.padding,
        );
        boid.set_initial_coordinates(clamped_x, clamped_y);
        self.boids.push(boid);
    }

    /// Adds one agent per row of draws: a fresh universe is given
    /// `DEFAULT_POPULATION` such rows to create its default population.
    pub fn populate(&mut self, rands: &Vec<InitRandoms>)
        requires
            old(self).wf(),
            forall|j: int| 0 <= j < rands@.len() ==> (#[trigger] rands@[j]).wf(),
            old(self).next_id + rands@.len() <= 0xffff_ffff,
        ensures
            final(self).wf(),
            final(self).canvas == old(self).canvas,
            final(self).next_id == old(self).next_id + rands@.len(),
            final(self).boids@.len() == old(self).boids@.len() + rands@.len(),
            forall|i: int|
                0 <= i < old(self).boids@.len() ==> final(self).boids@[i] == old(self).boids@[i],
            forall|j: int|
                0 <= j < rands@.len() ==> initialized_from(
                    #[trigger] final(self).boids@[old(self).boids@.len() + j],
                    old(self).canvas,
                    (old(self).next_id + j) as u32,
                    rands@[j],
                ),
    {
        let mut j: usize = 0;
        while j < rands.len()
            invariant
                j <= rands@.len(),
                self.wf(),
                self.canvas == old(self).canvas,
                self.next_id == old(self).next_id + j,
                self.boids@.len() == old(self).boids@.len() + j,
                forall|i: int|
                    0 <= i < old(self).boids@.len() ==> self.boids@[i] == old(self).boids@[i],
                forall|jj: int|
                    0 <= jj < j ==> initialized_from(
                        #[trigger] self.boids@[old(self).boids@.len() + jj],
                        old(self).canvas,
                        (old(self).next_id + jj) as u32,
                        rands@[jj],
                    ),
                forall|jj: int| 0 <= jj < rands@.len() ==> (#[trigger] rands@[jj]).wf(),
                old(self).next_id + rands@.len() <= 0xffff_ffff,
            decreases rands@.len() - j,
        {
            self.add_boid(rands[j]);
            j = j + 1;
        }
    }

    /// Replaces the canvas dimensions, keeping the padding; rejected
    /// exactly when the new dimensions are bad, and every agent is clamped
    /// into the new padded rectangle so the population invariant holds.
    pub fn set_canvas_dimensions(&mut self, width: i64, height: i64) -> (r: Result<(), SimError>)
        requires
            old(self).wf(),
            width <= MAX_DIM,
            height <= MAX_DIM,
        ensures
            r is Ok <==> (Canvas {
                width,
                height,
                padding: old(self).canvas.padding,
            }).wf(),
            r is Err ==> *final(self) == *old(self) && r->Err_0 == SimError::DimensionDomain,
            final(self).wf(),
            r is Ok ==> {
                &&& final(self).canvas == (Canvas {
                    width,
                    height,
                    padding: old(self).canvas.padding,
                })
                &&& final(self).boids@.len() == old(self).boids@.len()
                &&& forall|i: int|
                    0 <= i < old(self).boids@.len() ==> #[trigger] final(self).boids@[i] == (Boid {
                        point: (Point {
                            x: crate::fixed::clamp_spec(
                                old(self).boids@[i].point.x as int,
                                old(self).canvas.padding as int,
                                width - old(self).canvas.padding,
                            ) as i64,
                            y: crate::fixed::clamp_spec(
                                old(self).boids@[i].point.y as int,
                                old(self).canvas.padding as int,
                                height - old(self).canvas.padding,
                            ) as i64,
                        }),
                        ..old(self).boids@[i]
                    })
            },
    {
        match Canvas::new(width, height, self.canvas.padding) {
            Err(e) => Err(e),
            Ok(canvas) => {
                self.canvas = canvas;
                let mut i: usize = 0;
                while i < self.boids.len()
                    invariant
                        i <= self.boids@.len(),
                        self.canvas == canvas,
                        canvas.wf(),
                        self.boids@.len() == old(self).boids@.len(),
                        self.next_id == old(self).next_id,
                        forall|j: int|
                            i <= j < self.boids@.len() ==> #[trigger] self.boids@[j] == old(
                                self,
                            ).boids@[j],
                        forall|j: int|
                            0 <= j < i ==> #[trigger] self.boids@[j] == (Boid {
                                point: (Point {
                                    x: crate::fixed::clamp_spec(
                                        old(self).boids@[j].point.x as int,
                                        canvas.padding as int,
                                        canvas.width - canvas.padding,
                                    ) as i64,
                                    y: crate::fixed::clamp_spec(
                                        old(self).boids@[j].point.y as int,
                                        canvas.padding as int,
                                        canvas.height - canvas.padding,
                                    ) as i64,
                                }),
                                ..old(self).boids@[j]
                            }),
                        forall|j: int|
                            0 <= j < old(self).boids@.len() ==> (#[trigger] old(
                                self,
                            ).boids@[j]).wf_state() && old(self).boids@[j].id < old(self).next_id,
                        forall|j: int, k: int|
                            0 <= j < k < old(self).boids@.len() ==> old(self).boids@[j].id < old(
                                self,
                            ).boids@[k].id,
                    decreases self.boids@.len() - i,
                {
                    let px = crate::fixed::clamp_i64(
                        self.boids[i].point.x,
                        self.canvas.padding,
                        self.canvas.width - self.canvas.padding,
                    );
                    let py = crate::fixed::clamp_i64(
                        self.boids[i].point.y,
                        self.canvas.padding,
                        self.canvas.height - self.canvas.padding,
                    );
                    self.boids[i].point.x = px;
                    self.boids[i].point.y = py;
                    i = i + 1;
                }
                Ok(())
            },
        }
    }

    /// One simulation step: snapshot the population, bucket the snapshot
    /// into the grid, and update every agent against the contents of its
    /// home cell — a consistent start-of-tick frame, in insertion order.
    #[verifier::loop_isolation(false)]
    #[verifier::rlimit(100)]
    pub fn tick(&mut self, frames: u32)
        requires
            old(self).wf(),
            frames <= 1000,
        ensures
            final(self).wf(),
            final(self).canvas == old(self).canvas,
            final(self).boids@.len() == old(self).boids@.len(),
            forall|i: int|
                0 <= i < old(self).boids@.len() ==> crate::boid::is_step_of(
                    old(self).boids@[i],
                    #[trigger] final(self).boids@[i],
                    old(self).canvas,
                    candidates_of(old(self).boids@, old(self).canvas, old(self).boids@[i]),
                    frames as int,
                ),
    {
        let ghost before = self.boids@;
        let canvas = self.canvas;

        let mut snapshot: Vec<Boid> = Vec::new();
        let mut k: usize = 0;
        while k < self.boids.len()
            invariant
                k <= before.len(),
                snapshot@ == before.subrange(0, k as int),
            decreases before.len() - k,
        {
            snapshot.push(self.boids[k]);
            proof {
                assert(snapshot@ =~= before.subrange(0, k + 1));
            }
            k = k + 1;
        }
        proof {
            assert(snapshot@ =~= before);
        }

        let (map, cells) = grid_split(&canvas, &snapshot);
        let ghost scale = grid_scale(before);
        proof {
            lemma_grid_scale_bounds(before);
        }

        let mut i: usize = 0;
        while i < self.boids.len()
            invariant
                i <= before.len(),
                self.boids@.len() == before.len(),
                self.canvas == canvas,
                self.next_id == old(self).next_id,
                forall|j: int| i <= j < before.len() ==> self.boids@[j] == before[j],
                forall|j: int|
                    0 <= j < i ==> crate::boid::is_step_of(
                        before[j],
                        #[trigger] self.boids@[j],
                        canvas,
                        candidates_of(before, canvas, before[j]),
                        frames as int,
                    ) && self.boids@[j].wf_state() && self.boids@[j].in_bounds(canvas),
            decreases before.len() - i,
        {
            let id = self.boids[i].id;
            proof {
                assert(before[i as int] == old(self).boids@[i as int]);
                assert(before[i as int].wf_state() && before[i as int].in_bounds(canvas));
                assert(before[i as int].id == id);
            }
            match map.get(&id) {
                Some(home) => {
                    let (column, row) = *home;
                    proof {
                        assert(map@.contains_key(id) && map@[id] == (
                            home_col(before[i as int], canvas, scale) as usize,
                            home_row(before[i as int], canvas, scale) as usize,
                        ));
                        lemma_home_in_grid(
                            before[i as int].point.x as int,
                            canvas.width as int,
                            scale,
                        );
                        lemma_home_in_grid(
                            before[i as int].point.y as int,
                            canvas.height as int,
                            scale,
                        );
                        assert(cells@[column as int]@[row as int]@ == candidates_of(
                            before,
                            canvas,
                            before[i as int],
                        ));
                        assert(crate::boid::flock_ok(cells@[column as int]@[row as int]@)) by {
                            crate::boid::lemma_flock_ok_filter(
                                before,
                                |b: Boid|
                                    cell_near(
                                        b,
                                        canvas,
                                        scale,
                                        home_col(before[i as int], canvas, scale),
                                        home_row(before[i as int], canvas, scale),
                                    ),
                            );
                        }
                    }
                    let candidates = &cells[column][row];
                    self.boids[i].update(&canvas, candidates, frames);
                },
                None => {
                    proof {
                        assert(false);
                    }
                },
            }
            i = i + 1;
        }
    }
}

} // verus!

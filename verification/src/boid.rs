//! The flocking agent: state, visibility, steering rules and integration.
//!
//! All scalars are fixed-point micro-units (see `fixed`).  A boid carries a
//! position, a heading on the circle, a directional vision cone, speed
//! envelopes for its angular and linear velocity, and the rendering body
//! that follows the true heading with a capped visual angle.

use vstd::prelude::*;
use crate::angle::Angle;
use crate::angle::norm;
use crate::fixed::SCALE;
use crate::fixed::TAU;
use crate::fixed::QUARTER_TURN;
use crate::fixed::mul_div_floor;
use crate::trig::atan2;
use crate::trig::atan2_spec;

verus! {

/// Upper bound on canvas dimensions and coordinates, in micro-units
/// (one million canvas units).
pub const MAX_DIM: i64 = 1_000_000_000_000;

/// Upper bound on a speed envelope, in micro-units per frame.
pub const MAX_SPEED: i64 = 1_000_000_000;

/// Upper bound on the rendering body's measurements, in micro-units.
pub const MAX_SIZE: i64 = 1_000_000_000;

/// Floor of the linear speed envelope: 0.2 units per frame.
pub const LINEAR_SPEED_FLOOR: i64 = 200_000;

/// Linear acceleration per frame of the default drift: 0.03.
pub const DRIFT_ACCEL: i64 = 30_000;

/// A 45th of a turn: the base of the angular speed ceiling, and the cap of
/// the visual angle's movement per frame.
pub const TURN_RATE: i64 = 139_626;

/// Default sight range: 100 canvas units.
pub const VISION_RADIUS: i64 = 100_000_000;

/// Default angular aperture of the vision cone: 1.25 half turns.
pub const VISION_APERTURE: i64 = 3_926_990;

/// Default gain of the wall-avoidance turn.
pub const K_OBSTACLE: i64 = 2_000_000;

/// Default gain of the separation turn.
pub const K_AVOID: i64 = 200_000;

/// Default gain of the alignment turn.
pub const K_ALIGN: i64 = 70_000;

/// Default gain of the cohesion turn.
pub const K_COHERE: i64 = 20_000;

/// The engine's error kinds; all of them are programmer errors in the host.
#[derive(Clone, Copy, Debug, PartialEq, Eq, Structural)]
pub enum SimError {
    /// An entry point other than universe creation ran before the universe
    /// existed.
    NotInitialized,
    /// A canvas dimension was not positive, or the padding reached half the
    /// smaller dimension.
    DimensionDomain,
    /// A candidate list contained the agent itself; such an entry is
    /// skipped.
    DegenerateCandidate,
}

/// Which part of the field of view a visibility test asks about, relative
/// to the agent's own heading.
#[derive(Clone, Copy, Debug, PartialEq, Eq, Structural)]
pub enum Side {
    Both,
    Left,
    Right,
}

/// A color by its three channels.
#[derive(Clone, Copy, Debug, PartialEq, Eq, Structural)]
pub struct Rgb {
    pub red: u8,
    pub green: u8,
    pub blue: u8,
}

/// A position in canvas micro-units.
#[derive(Clone, Copy, Debug, PartialEq, Eq, Structural)]
pub struct Point {
    pub x: i64,
    pub y: i64,
}

/// The directional sensing region: a sight range and a total angular
/// aperture, symmetric about the heading.
#[derive(Clone, Copy, PartialEq, Eq, Structural)]
pub struct Cone {
    pub radius: i64,
    pub radians: Angle,
}

impl Cone {
    pub open spec fn wf(&self) -> bool {
        &&& 1 <= self.radius <= MAX_DIM
        &&& self.radians.wf()
    }
}

/// A speed envelope: the value is kept between the two bounds.
#[derive(Clone, Copy, PartialEq, Eq, Structural)]
pub struct Speed {
    pub min: i64,
    pub max: i64,
    pub value: i64,
}

impl Speed {
    /// A one-sided envelope: the value itself lies in `[min, max]`.
    pub open spec fn wf_linear(&self) -> bool {
        &&& 0 <= self.min <= self.max <= MAX_SPEED
        &&& self.min <= self.value <= self.max
    }

    /// A signed envelope: the magnitude lies in `[min, max]`, and the floor
    /// is zero (nothing in the engine ever raises it).
    pub open spec fn wf_angular(&self) -> bool {
        &&& self.min == 0
        &&& 0 <= self.max <= TAU
        &&& -self.max <= self.value <= self.max
    }
}

/// The rendering body: cosmetic, except that the steering rules read the
/// size and the visual angle lags the true heading.
#[derive(Clone, Copy, PartialEq, Eq, Structural)]
pub struct Body {
    pub size: i64,
    pub width: i64,
    pub color: Rgb,
    pub angle: Angle,
}

impl Body {
    pub open spec fn wf(&self) -> bool {
        &&& 0 <= self.size <= MAX_SIZE
        &&& 0 <= self.width <= MAX_SIZE
        &&& self.angle.wf()
    }
}

/// The gains of the four steering effects.
#[derive(Clone, Copy, PartialEq, Eq, Structural)]
pub struct Behaviors {
    pub avoid_obstacles: i64,
    pub avoid_entity: i64,
    pub follow_group: i64,
    pub go_to_group: i64,
}

impl Behaviors {
    pub open spec fn wf(&self) -> bool {
        &&& 0 <= self.avoid_obstacles <= 10 * SCALE
        &&& 0 <= self.avoid_entity <= 10 * SCALE
        &&& 0 <= self.follow_group <= 10 * SCALE
        &&& 0 <= self.go_to_group <= 10 * SCALE
    }
}

/// The enclosing rectangle; agents are constrained to the inner rectangle
/// that the padding leaves.
#[derive(Clone, Copy, PartialEq, Eq, Structural)]
pub struct Canvas {
    pub width: i64,
    pub height: i64,
    pub padding: i64,
}

impl Canvas {
    /// Dimensions positive and bounded, and the padding strictly under half
    /// the smaller dimension, so the inner rectangle has positive extent.
    pub open spec fn wf(&self) -> bool {
        &&& 0 < self.width <= MAX_DIM
        &&& 0 < self.height <= MAX_DIM
        &&& 0 < self.padding
        &&& 2 * self.padding < self.width
        &&& 2 * self.padding < self.height
    }

    /// A canvas from its dimensions; rejected when a dimension is not
    /// positive or the padding reaches half the smaller dimension.
    pub fn new(width: i64, height: i64, padding: i64) -> (r: Result<Canvas, SimError>)
        requires
            width <= MAX_DIM,
            height <= MAX_DIM,
        ensures
            r is Ok <==> (Canvas { width, height, padding }).wf(),
            r is Ok ==> r->Ok_0 == (Canvas { width, height, padding }),
            r is Err ==> r->Err_0 == SimError::DimensionDomain,
    {
        if width <= 0 || height <= 0 || padding <= 0 || padding > MAX_DIM || 2 * padding
            >= width || 2 * padding >= height {
            Err(SimError::DimensionDomain)
        } else {
            Ok(Canvas { width, height, padding })
        }
    }
}

/// The random draws that initialization consumes, each in `[0, SCALE)`;
/// the random source itself is an external collaborator of the engine.
#[derive(Clone, Copy, PartialEq, Eq, Structural)]
pub struct InitRandoms {
    pub weight: i64,
    pub size: i64,
    pub x: i64,
    pub y: i64,
    pub heading: i64,
    pub linear: i64,
    pub angular: i64,
}

impl InitRandoms {
    pub open spec fn wf(&self) -> bool {
        &&& 0 <= self.weight < SCALE
        &&& 0 <= self.size < SCALE
        &&& 0 <= self.x < SCALE
        &&& 0 <= self.y < SCALE
        &&& 0 <= self.heading < SCALE
        &&& 0 <= self.linear < SCALE
        &&& 0 <= self.angular < SCALE
    }
}

/// One autonomous flocking agent.
#[derive(Clone, Copy, PartialEq, Eq, Structural)]
pub struct Boid {
    /// Stable identity, assigned once by the universe and never changed.
    pub id: u32,
    pub point: Point,
    pub vision: Cone,
    /// The heading: the direction of travel, measured from screen-up,
    /// clockwise, normalized.
    pub angle: Angle,
    /// Steering mass in `[SCALE, 2 * SCALE]`.
    pub weight: i64,
    pub angular_speed: Speed,
    pub linear_speed: Speed,
    pub body: Body,
    pub behaviors: Behaviors,
}

impl Boid {
    /// The agent's own state is well formed, independently of any canvas.
    pub open spec fn wf_state(&self) -> bool {
        &&& self.angle.wf()
        &&& self.vision.wf()
        &&& SCALE <= self.weight <= 2 * SCALE
        &&& self.angular_speed.wf_angular()
        &&& self.linear_speed.wf_linear()
        &&& self.body.wf()
        &&& self.behaviors.wf()
    }

    /// The agent stands inside the padded rectangle of the canvas.
    pub open spec fn in_bounds(&self, canvas: Canvas) -> bool {
        &&& canvas.padding <= self.point.x <= canvas.width - canvas.padding
        &&& canvas.padding <= self.point.y <= canvas.height - canvas.padding
    }

    /// A fresh agent: every varying field zero, the steering gains at their
    /// defaults.  Identities are handed out by the universe.
    pub fn new(id: u32) -> (b: Boid)
        ensures
            b.id == id,
            b.point == (Point { x: 0, y: 0 }),
            b.vision.radius == 0,
            b.vision.radians@ == 0,
            b.angle@ == 0,
            b.weight == 0,
            b.angular_speed == (Speed { min: 0, max: 0, value: 0 }),
            b.linear_speed == (Speed { min: 0, max: 0, value: 0 }),
            b.body.size == 0,
            b.body.width == 0,
            b.body.color == (Rgb { red: 0, green: 0, blue: 0 }),
            b.body.angle@ == 0,
            b.behaviors == (Behaviors {
                avoid_obstacles: K_OBSTACLE,
                avoid_entity: K_AVOID,
                follow_group: K_ALIGN,
                go_to_group: K_COHERE,
            }),
    {
        Boid {
            id,
            point: Point { x: 0, y: 0 },
            vision: Cone { radius: 0, radians: Angle::new(0) },
            angle: Angle::new(0),
            weight: 0,
            angular_speed: Speed { min: 0, max: 0, value: 0 },
            linear_speed: Speed { min: 0, max: 0, value: 0 },
            body: Body {
                size: 0,
                width: 0,
                color: Rgb { red: 0, green: 0, blue: 0 },
                angle: Angle::new(0),
            },
            behaviors: Behaviors {
                avoid_obstacles: K_OBSTACLE,
                avoid_entity: K_AVOID,
                follow_group: K_ALIGN,
                go_to_group: K_COHERE,
            },
        }
    }

    /// Weight one plus the boost; the body size from its own draw, between
    /// 10 and 40 units.
    pub fn set_initial_weight(&mut self, weight_boost: i64, size_roll: i64)
        requires
            0 <= weight_boost < SCALE,
            0 <= size_roll < SCALE,
        ensures
            *final(self) == (Boid {
                weight: (SCALE + weight_boost) as i64,
                body: Body { size: (10 * SCALE + size_roll * 15) as i64, ..old(self).body },
                ..*old(self)
            }),
    {
        self.weight = SCALE + weight_boost;
        let capped = if size_roll <= 2 * SCALE {
            size_roll
        } else {
            2 * SCALE
        };
        self.body.size = 10 * SCALE + capped * 15;
    }

    /// The position, as given.
    pub fn set_initial_coordinates(&mut self, x: i64, y: i64)
        ensures
            *final(self) == (Boid { point: (Point { x, y }), ..*old(self) }),
    {
        self.point.x = x;
        self.point.y = y;
    }

    /// Heading and visual angle, normalized from the given micro-radians.
    pub fn set_initial_angle(&mut self, angle: i64)
        ensures
            final(self).angle@ == norm(angle as int),
            final(self).angle.wf(),
            final(self).body.angle == final(self).angle,
            *final(self) == (Boid {
                angle: final(self).angle,
                body: Body { angle: final(self).angle, ..old(self).body },
                ..*old(self)
            }),
    {
        let a = Angle::new(angle);
        self.angle = a;
        self.body.angle = a;
    }

    /// The vision cone, aperture normalized.
    pub fn set_initial_vision(&mut self, radius: i64, radians: i64)
        requires
            1 <= radius <= MAX_DIM,
        ensures
            final(self).vision.radius == radius,
            final(self).vision.radians@ == norm(radians as int),
            final(self).vision.wf(),
            *final(self) == (Boid { vision: final(self).vision, ..*old(self) }),
    {
        self.vision.radius = radius;
        self.vision.radians = Angle::new(radians);
    }

    /// The linear envelope: floor 0.2, ceiling two plus the draw, the value
    /// at the floor; the body width falls as the ceiling rises.
    pub fn set_max_linear_speed(&mut self, speed: i64)
        requires
            0 <= speed < SCALE,
        ensures
            *final(self) == (Boid {
                linear_speed: (Speed {
                    min: LINEAR_SPEED_FLOOR,
                    max: (2 * SCALE + speed) as i64,
                    value: LINEAR_SPEED_FLOOR,
                }),
                body: Body { width: (5 * SCALE + (SCALE - speed) * 10) as i64, ..old(self).body },
                ..*old(self)
            }),
            final(self).linear_speed.wf_linear(),
    {
        self.linear_speed.min = LINEAR_SPEED_FLOOR;
        self.linear_speed.value = LINEAR_SPEED_FLOOR;
        self.linear_speed.max = 2 * SCALE + speed;
        let slack = if SCALE - speed >= 0 {
            SCALE - speed
        } else {
            0
        };
        self.body.width = 5 * SCALE + slack * 10;
    }

    /// The angular envelope: floor zero, ceiling a 45th of a turn scaled by
    /// one plus the draw, the value at rest; colors the body when it still
    /// has no color.
    pub fn set_max_angular_speed(&mut self, speed: i64)
        requires
            0 <= speed < SCALE,
        ensures
            final(self).angular_speed == (Speed {
                min: 0,
                max: (TURN_RATE as int * (speed + SCALE) / (SCALE as int)) as i64,
                value: 0,
            }),
            final(self).angular_speed.wf_angular(),
            final(self).point == old(self).point,
            final(self).vision == old(self).vision,
            final(self).angle == old(self).angle,
            final(self).weight == old(self).weight,
            final(self).linear_speed == old(self).linear_speed,
            final(self).behaviors == old(self).behaviors,
            final(self).body.size == old(self).body.size,
            final(self).body.width == old(self).body.width,
            final(self).body.angle == old(self).body.angle,
            old(self).body.color == (Rgb { red: 0, green: 0, blue: 0 }) ==> final(self).body.color == color_of_ceiling(final(self).angular_speed.max as int),
            old(self).body.color != (Rgb { red: 0, green: 0, blue: 0 }) ==> final(self).body.color == old(self).body.color,
            final(self).id == old(self).id,
    {
        self.angular_speed.min = 0;
        self.angular_speed.value = 0;
        proof {
            vstd::arithmetic::div_mod::lemma_div_pos_is_pos(
                TURN_RATE as int * (speed + SCALE),
                SCALE as int,
            );
            vstd::arithmetic::div_mod::lemma_div_is_ordered(
                TURN_RATE as int * (speed + SCALE),
                TURN_RATE as int * (2 * SCALE as int),
                SCALE as int,
            );
            assert(TURN_RATE as int * (speed + SCALE) <= TURN_RATE as int * (2 * SCALE as int))
                by (nonlinear_arith)
                requires
                    speed + SCALE <= 2 * SCALE as int,
                    0 <= speed,
            ;
            assert(TURN_RATE as int * (2 * SCALE as int) == (2 * TURN_RATE as int) * SCALE as int)
                by (nonlinear_arith);
            vstd::arithmetic::div_mod::lemma_div_multiples_vanish(
                2 * TURN_RATE as int,
                SCALE as int,
            );
        }
        self.angular_speed.max = mul_div_floor(TURN_RATE, speed + SCALE, SCALE);
        if self.body.color.red == 0 && self.body.color.green == 0 && self.body.color.blue == 0 {
            self.reset_color();
        }
    }

    /// The body color encoding the angular ceiling: the recovered draw maps
    /// to the red and blue channels, its complement to the green channel.
    pub fn reset_color(&mut self)
        requires
            0 <= old(self).angular_speed.max <= TAU,
        ensures
            *final(self) == (Boid {
                body: Body {
                    color: color_of_ceiling(old(self).angular_speed.max as int),
                    ..old(self).body
                },
                ..*old(self)
            }),
    {
        proof {
            let ceiling = old(self).angular_speed.max as int;
            vstd::arithmetic::div_mod::lemma_div_pos_is_pos(
                ceiling * 45 * (SCALE as int),
                TAU as int,
            );
            vstd::arithmetic::div_mod::lemma_div_is_ordered(
                ceiling * 45 * (SCALE as int),
                TAU as int * (45 * SCALE as int),
                TAU as int,
            );
            assert(ceiling * 45 * (SCALE as int) <= TAU as int * (45 * SCALE as int))
                by (nonlinear_arith)
                requires
                    0 <= ceiling <= TAU as int,
            ;
            assert(TAU as int * (45 * SCALE as int) == (45 * SCALE as int) * TAU as int)
                by (nonlinear_arith);
            vstd::arithmetic::div_mod::lemma_div_multiples_vanish(45 * SCALE as int, TAU as int);
        }
        let recovered = mul_div_floor(self.angular_speed.max * 45, SCALE, TAU) - SCALE;
        let clamped = crate::fixed::clamp_i64(recovered, 0, SCALE);
        let purple = ((clamped * 180 + SCALE / 2) / SCALE) as u8;
        let green = (((SCALE - clamped) * 180 + SCALE / 2) / SCALE) as u8;
        self.body.color = Rgb { red: purple, green, blue: purple };
    }

    /// Fills every still-zero field from the given draws: weight and size,
    /// position scaled to the canvas, heading on the circle, the default
    /// vision cone, and the two speed envelopes.
    pub fn set_all_initial(&mut self, canvas: &Canvas, rand: &InitRandoms)
        requires
            canvas.wf(),
            rand.wf(),
        ensures
            final(self).id == old(self).id,
            final(self).behaviors == old(self).behaviors,
            final(self).weight == if old(self).weight == 0 {
                SCALE + rand.weight
            } else {
                old(self).weight as int
            },
            final(self).body.size == if old(self).weight == 0 {
                10 * SCALE + rand.size * 15
            } else {
                old(self).body.size as int
            },
            final(self).point == if old(self).point.x == 0 && old(self).point.y == 0 {
                (Point {
                    x: (rand.x as int * canvas.width / (SCALE as int)) as i64,
                    y: (rand.y as int * canvas.height / (SCALE as int)) as i64,
                })
            } else {
                old(self).point
            },
            old(self).angle@ == 0 ==> final(self).angle@ == norm(
                rand.heading as int * TAU / (SCALE as int),
            ) && final(self).body.angle == final(self).angle,
            old(self).angle@ != 0 ==> final(self).angle == old(self).angle && final(self).body.angle == old(self).body.angle,
            final(self).vision == if old(self).vision.radius == 0 || old(self).vision.radians@
                == 0 {
                (Cone { radius: VISION_RADIUS, radians: final(self).vision.radians })
            } else {
                old(self).vision
            },
            (old(self).vision.radius == 0 || old(self).vision.radians@ == 0) ==> final(self).vision.radians@ == VISION_APERTURE,
            final(self).linear_speed == if old(self).linear_speed.max == 0 {
                (Speed {
                    min: LINEAR_SPEED_FLOOR,
                    max: (2 * SCALE + rand.linear) as i64,
                    value: LINEAR_SPEED_FLOOR,
                })
            } else {
                old(self).linear_speed
            },
            final(self).body.width == if old(self).linear_speed.max == 0 {
                5 * SCALE + (SCALE - rand.linear) * 10
            } else {
                old(self).body.width as int
            },
            final(self).angular_speed == if old(self).angular_speed.max == 0 {
                (Speed {
                    min: 0,
                    max: (TURN_RATE as int * (rand.angular + SCALE) / (SCALE as int)) as i64,
                    value: 0,
                })
            } else {
                old(self).angular_speed
            },
            old(self).angular_speed.max == 0 ==> final(self).angular_speed.wf_angular(),
            old(self).linear_speed.max == 0 ==> final(self).linear_speed.wf_linear(),
            (old(self).angular_speed.max == 0 && old(self).body.color == (Rgb {
                red: 0,
                green: 0,
                blue: 0,
            })) ==> final(self).body.color == color_of_ceiling(
                final(self).angular_speed.max as int,
            ),
            (old(self).angular_speed.max != 0 || old(self).body.color != (Rgb {
                red: 0,
                green: 0,
                blue: 0,
            })) ==> final(self).body.color == old(self).body.color,
            old(self).point.x == 0 && old(self).point.y == 0 ==> 0 <= rand.x as int * canvas.width
                / (SCALE as int) < canvas.width && 0 <= rand.y as int * canvas.height / (
            SCALE as int) < canvas.height,
    {
        if self.weight == 0 {
            self.set_initial_weight(rand.weight, rand.size);
        }
        if self.point.x == 0 && self.point.y == 0 {
            proof {
                lemma_scaled_in_range(rand.x as int, canvas.width as int);
                lemma_scaled_in_range(rand.y as int, canvas.height as int);
            }
            let x = mul_div_floor(rand.x, canvas.width, SCALE);
            let y = mul_div_floor(rand.y, canvas.height, SCALE);
            self.set_initial_coordinates(x, y);
        }
        if self.angle.get() == 0 {
            proof {
                lemma_scaled_in_range(rand.heading as int, TAU as int);
            }
            let heading = mul_div_floor(rand.heading, TAU, SCALE);
            self.set_initial_angle(heading);
        }
        if self.vision.radius == 0 || self.vision.radians.get() == 0 {
            self.set_initial_vision(VISION_RADIUS, VISION_APERTURE);
            proof {
                vstd::arithmetic::div_mod::lemma_small_mod(
                    VISION_APERTURE as nat,
                    TAU as nat,
                );
            }
        }
        if self.linear_speed.max == 0 {
            self.set_max_linear_speed(rand.linear);
        }
        if self.angular_speed.max == 0 {
            self.set_max_angular_speed(rand.angular);
        }
    }
}

/// The squared Euclidean distance between two positions.
pub open spec fn dist_sq(a: Point, b: Point) -> int {
    (b.x - a.x) * (b.x - a.x) + (b.y - a.y) * (b.y - a.y)
}

impl Boid {
    /// What a visibility test needs of the agent: a normalized heading and
    /// aperture, and bounded range and position.
    pub open spec fn vis_ready(&self) -> bool {
        &&& self.angle.wf()
        &&& self.vision.radians.wf()
        &&& 0 <= self.vision.radius <= MAX_DIM
        &&& -MAX_DIM <= self.point.x <= MAX_DIM
        &&& -MAX_DIM <= self.point.y <= MAX_DIM
    }

    /// The bearing of a target relative to screen-up, seen from the agent's
    /// position: the polar angle of the offset, turned a quarter back.
    pub open spec fn bearing_spec(self, p: Point) -> int {
        norm(atan2_spec(-(p.y - self.point.y), p.x - self.point.x) - QUARTER_TURN)
    }

    /// The directional visibility predicate: the target is within sight
    /// range (closed bound), and its bearing falls in the asked-for side of
    /// the cone about the heading.
    pub open spec fn sees_spec(self, p: Point, side: Side) -> bool {
        let dx = p.x - self.point.x;
        let dy = p.y - self.point.y;
        if dx * dx + dy * dy > self.vision.radius * self.vision.radius {
            false
        } else {
            let delta = norm(self.bearing_spec(p) - self.angle@);
            let half = self.vision.radians@ / 2;
            let on_left = delta < half;
            let on_right = delta > TAU - half;
            match side {
                Side::Both => on_left || on_right,
                Side::Left => on_left,
                Side::Right => on_right,
            }
        }
    }

    /// Whether a target point falls in the given side of the field of view.
    pub fn test_point_visibility(&self, point: &Point, side: Side) -> (r: bool)
        requires
            self.vis_ready(),
            -2 * MAX_DIM <= point.x <= 2 * MAX_DIM,
            -2 * MAX_DIM <= point.y <= 2 * MAX_DIM,
        ensures
            r == self.sees_spec(*point, side),
    {
        let dx = point.x - self.point.x;
        let dy = point.y - self.point.y;
        proof {
            assert(0 <= (dx as int) * (dx as int) <= 0x1000_0000_0000_0000_0000_0000_0000 && 0 <= (
            dy as int) * (dy as int) <= 0x1000_0000_0000_0000_0000_0000_0000 && 0 <= (
            self.vision.radius as int) * (self.vision.radius as int)
                <= 0x1000_0000_0000_0000_0000_0000_0000) by (nonlinear_arith)
                requires
                    -3 * MAX_DIM <= dx <= 3 * MAX_DIM,
                    -3 * MAX_DIM <= dy <= 3 * MAX_DIM,
                    0 <= self.vision.radius <= MAX_DIM,
                    MAX_DIM == 1_000_000_000_000,
            ;
        }
        let d2: i128 = (dx as i128) * (dx as i128) + (dy as i128) * (dy as i128);
        let r2: i128 = (self.vision.radius as i128) * (self.vision.radius as i128);
        if d2 > r2 {
            return false;
        }
        let bearing = Angle::new(atan2(-dy, dx) - QUARTER_TURN);
        let delta = bearing.sub(self.angle);
        let half = self.vision.radians.get() / 2;
        let on_left = delta.get() < half;
        let on_right = delta.get() > TAU - half;
        match side {
            Side::Both => on_left || on_right,
            Side::Left => on_left,
            Side::Right => on_right,
        }
    }

    /// The candidates the agent sees on the given side, itself excluded
    /// (a candidate carrying the agent's own id is skipped as degenerate).
    pub open spec fn visible_seq(self, cands: Seq<Boid>, side: Side) -> Seq<Boid> {
        cands.filter(|b: Boid| b.id != self.id && self.sees_spec(b.point, side))
    }

    /// The candidates visible on the given side, in their incoming order.
    pub fn filter_points_by_visibility(&self, boids: &Vec<Boid>, side: Side) -> (v: Vec<Boid>)
        requires
            self.vis_ready(),
            forall|i: int|
                0 <= i < boids@.len() ==> -2 * MAX_DIM <= #[trigger] boids@[i].point.x <= 2
                    * MAX_DIM && -2 * MAX_DIM <= boids@[i].point.y <= 2 * MAX_DIM,
        ensures
            v@ == self.visible_seq(boids@, side),
    {
        let ghost pred = |b: Boid| b.id != self.id && self.sees_spec(b.point, side);
        let mut out: Vec<Boid> = Vec::new();
        proof {
            reveal(Seq::filter);
            assert(boids@.subrange(0, 0).filter(pred) =~= Seq::<Boid>::empty());
        }
        let mut i: usize = 0;
        while i < boids.len()
            invariant
                i <= boids@.len(),
                out@ == boids@.subrange(0, i as int).filter(pred),
                self.vis_ready(),
                pred == (|b: Boid| b.id != self.id && self.sees_spec(b.point, side)),
                forall|j: int|
                    0 <= j < boids@.len() ==> -2 * MAX_DIM <= #[trigger] boids@[j].point.x <= 2
                        * MAX_DIM && -2 * MAX_DIM <= boids@[j].point.y <= 2 * MAX_DIM,
            decreases boids@.len() - i,
        {
            let b = boids[i];
            if b.id != self.id && self.test_point_visibility(&b.point, side) {
                out.push(b);
            }
            proof {
                reveal(Seq::filter);
                let pre = boids@.subrange(0, i as int);
                let cur = boids@.subrange(0, i + 1);
                assert(cur.drop_last() =~= pre);
                assert(cur.last() == boids@[i as int]);
            }
            i = i + 1;
        }
        proof {
            assert(boids@.subrange(0, boids@.len() as int) =~= boids@);
        }
        out
    }

    /// The members of a group standing nearer than the two body sizes
    /// together.
    pub open spec fn too_close_seq(self, visible: Seq<Boid>) -> Seq<Boid> {
        visible.filter(
            |b: Boid|
                dist_sq(self.point, b.point) < (self.body.size + b.body.size) * (self.body.size
                    + b.body.size),
        )
    }

    /// Separation: whether someone visible stands too close, and the turn
    /// direction away from the heavier crowded side (`sgn` of the right
    /// mass minus the left mass).
    pub open spec fn closest_direction_spec(self, visible: Seq<Boid>) -> (bool, int) {
        let tc = self.too_close_seq(visible);
        if tc.len() == 0 {
            (false, 0)
        } else {
            let lefts = self.visible_seq(tc, Side::Left);
            let rights = self.visible_seq(tc, Side::Right);
            if lefts.len() == 0 && rights.len() == 0 {
                (false, 0)
            } else {
                (true, crate::fixed::sgn(weight_sum(rights) - weight_sum(lefts)))
            }
        }
    }

    /// Of the visible agents too close, whether any side is crowded, and
    /// the direction in which to turn to get away.
    pub fn find_closest_direction(&self, boids: &Vec<Boid>) -> (r: (bool, i64))
        requires
            self.vis_ready(),
            0 <= self.body.size <= MAX_SIZE,
            flock_ok(boids@),
        ensures
            r.0 == self.closest_direction_spec(boids@).0,
            r.1 == self.closest_direction_spec(boids@).1,
            -1 <= r.1 <= 1,
    {
        let ghost pred = |b: Boid|
            dist_sq(self.point, b.point) < (self.body.size + b.body.size) * (self.body.size
                + b.body.size);
        let mut tc: Vec<Boid> = Vec::new();
        proof {
            reveal(Seq::filter);
            assert(boids@.subrange(0, 0).filter(pred) =~= Seq::<Boid>::empty());
        }
        let mut i: usize = 0;
        while i < boids.len()
            invariant
                i <= boids@.len(),
                tc@ == boids@.subrange(0, i as int).filter(pred),
                self.vis_ready(),
                0 <= self.body.size <= MAX_SIZE,
                flock_ok(boids@),
                flock_ok(tc@),
                pred == (|b: Boid|
                    dist_sq(self.point, b.point) < (self.body.size + b.body.size) * (
                    self.body.size + b.body.size)),
            decreases boids@.len() - i,
        {
            let b = boids[i];
            let dx = b.point.x - self.point.x;
            let dy = b.point.y - self.point.y;
            proof {
                assert(0 <= (dx as int) * (dx as int) <= 0x1000_0000_0000_0000_0000_0000_0000 && 0
                    <= (dy as int) * (dy as int) <= 0x1000_0000_0000_0000_0000_0000_0000 && 0 <= (
                self.body.size + b.body.size as int) * (self.body.size + b.body.size as int)
                    <= 0x1000_0000_0000_0000_0000_0000_0000) by (nonlinear_arith)
                    requires
                        -3 * MAX_DIM <= dx <= 3 * MAX_DIM,
                        -3 * MAX_DIM <= dy <= 3 * MAX_DIM,
                        0 <= self.body.size <= MAX_SIZE,
                        0 <= b.body.size <= MAX_SIZE,
                        MAX_DIM == 1_000_000_000_000,
                        MAX_SIZE == 1_000_000_000,
                ;
            }
            let d2: i128 = (dx as i128) * (dx as i128) + (dy as i128) * (dy as i128);
            let span: i64 = self.body.size + b.body.size;
            let s2: i128 = (span as i128) * (span as i128);
            if d2 < s2 {
                tc.push(b);
            }
            proof {
                reveal(Seq::filter);
                let pre = boids@.subrange(0, i as int);
                let cur = boids@.subrange(0, i + 1);
                assert(cur.drop_last() =~= pre);
                assert(cur.last() == boids@[i as int]);
                assert(flock_ok(tc@)) by {
                    lemma_flock_ok_filter(cur, pred);
                }
            }
            i = i + 1;
        }
        proof {
            assert(boids@.subrange(0, boids@.len() as int) =~= boids@);
        }
        if tc.len() == 0 {
            return (false, 0);
        }
        let lefts = self.filter_points_by_visibility(&tc, Side::Left);
        let rights = self.filter_points_by_visibility(&tc, Side::Right);
        proof {
            lemma_flock_ok_filter(
                tc@,
                |b: Boid| b.id != self.id && self.sees_spec(b.point, Side::Left),
            );
            lemma_flock_ok_filter(
                tc@,
                |b: Boid| b.id != self.id && self.sees_spec(b.point, Side::Right),
            );
        }
        if lefts.len() == 0 && rights.len() == 0 {
            return (false, 0);
        }
        let left_weight = sum_weights(&lefts);
        let right_weight = sum_weights(&rights);
        let direction: i64 = if right_weight > left_weight {
            1
        } else if right_weight < left_weight {
            -1
        } else {
            0
        };
        (true, direction)
    }

    /// Alignment: whether the group is non-empty, the turn direction toward
    /// the group's raw-scalar mean heading, and the group size.  The mean
    /// here is the plain weighted mean of the heading representatives, the
    /// engine's canonical choice; it is discontinuous where headings
    /// straddle the wrap.
    pub open spec fn group_direction_spec(self, visible: Seq<Boid>) -> (bool, int, int) {
        if visible.len() == 0 {
            (false, 0, 0)
        } else {
            let mean = heading_weight_sum(visible) / weight_sum(visible);
            (true, crate::angle::angle_sgn(norm(mean - self.angle@)), visible.len() as int)
        }
    }

    /// The turn direction toward the weighted mean heading of the visible
    /// group, with the group's size.
    pub fn find_group_direction(&self, boids: &Vec<Boid>) -> (r: (bool, i64, usize))
        requires
            self.angle.wf(),
            flock_ok(boids@),
        ensures
            r.0 == self.group_direction_spec(boids@).0,
            r.1 == self.group_direction_spec(boids@).1,
            r.2 == self.group_direction_spec(boids@).2,
            -1 <= r.1 <= 1,
    {
        if boids.len() == 0 {
            return (false, 0, 0);
        }
        let total_weight = sum_weights(boids);
        let total_heading = sum_heading_weights(boids);
        proof {
            lemma_weight_sum_bounds(boids@);
            lemma_heading_weight_sum_bounds(boids@);
            vstd::arithmetic::div_mod::lemma_div_pos_is_pos(
                heading_weight_sum(boids@),
                weight_sum(boids@),
            );
            vstd::arithmetic::div_mod::lemma_div_is_ordered(
                heading_weight_sum(boids@),
                (TAU - 1) * weight_sum(boids@),
                weight_sum(boids@),
            );
            vstd::arithmetic::div_mod::lemma_div_multiples_vanish(
                TAU as int - 1,
                weight_sum(boids@),
            );
            assert((TAU - 1) * weight_sum(boids@) == weight_sum(boids@) * (TAU as int - 1))
                by (nonlinear_arith);
        }
        let mean: i64 = (total_heading / total_weight) as i64;
        let direction = Angle::new(mean - self.angle.get()).signum();
        (true, direction, boids.len())
    }

    /// Cohesion: whether anyone is visible to a side, and the turn
    /// direction toward the heavier side (`sgn` of the left mass minus the
    /// right mass).
    pub open spec fn density_direction_spec(self, visible: Seq<Boid>) -> (bool, int) {
        let lefts = self.visible_seq(visible, Side::Left);
        let rights = self.visible_seq(visible, Side::Right);
        if lefts.len() == 0 && rights.len() == 0 {
            (false, 0)
        } else {
            (true, crate::fixed::sgn(weight_sum(lefts) - weight_sum(rights)))
        }
    }

    /// The turn direction toward the denser visible side.
    pub fn find_density_direction(&self, boids: &Vec<Boid>) -> (r: (bool, i64))
        requires
            self.vis_ready(),
            flock_ok(boids@),
        ensures
            r.0 == self.density_direction_spec(boids@).0,
            r.1 == self.density_direction_spec(boids@).1,
            -1 <= r.1 <= 1,
    {
        let lefts = self.filter_points_by_visibility(boids, Side::Left);
        let rights = self.filter_points_by_visibility(boids, Side::Right);
        proof {
            lemma_flock_ok_filter(
                boids@,
                |b: Boid| b.id != self.id && self.sees_spec(b.point, Side::Left),
            );
            lemma_flock_ok_filter(
                boids@,
                |b: Boid| b.id != self.id && self.sees_spec(b.point, Side::Right),
            );
        }
        if lefts.len() == 0 && rights.len() == 0 {
            return (false, 0);
        }
        let left_weight = sum_weights(&lefts);
        let right_weight = sum_weights(&rights);
        let direction: i64 = if left_weight > right_weight {
            1
        } else if left_weight < right_weight {
            -1
        } else {
            0
        };
        (true, direction)
    }

    /// The lookahead point one sight range ahead of the agent: where it
    /// would stand after travelling its radius along its heading.
    pub open spec fn lookahead_x(self) -> int {
        self.point.x - crate::trig::sin_spec(self.angle@) * self.vision.radius / (SCALE as int)
    }

    pub open spec fn lookahead_y(self) -> int {
        self.point.y - crate::trig::cos_spec(self.angle@) * self.vision.radius / (SCALE as int)
    }

    /// The angle encoding a wall: the heading measured in quarter turns,
    /// shifted down by the wall's index and read as an angle.  Its `sgn`
    /// on the circle is the turn direction that veers away from that wall.
    pub open spec fn wall_code(self, k: int) -> int {
        norm(self.angle@ * (SCALE as int) / (QUARTER_TURN as int) - k * SCALE)
    }

    /// The walls the lookahead crosses, in the fixed order left, right,
    /// top, bottom: each as its encoded angle and the agent's perpendicular
    /// distance to it.
    pub open spec fn wall_hits(self, canvas: Canvas) -> Seq<(int, int)> {
        let fx = self.lookahead_x();
        let fy = self.lookahead_y();
        let s0 = Seq::<(int, int)>::empty();
        let s1 = if fx < canvas.padding {
            s0.push((self.wall_code(1), self.point.x - canvas.padding))
        } else {
            s0
        };
        let s2 = if fx > canvas.width - canvas.padding {
            s1.push((self.wall_code(3), canvas.width - canvas.padding - self.point.x))
        } else {
            s1
        };
        let s3 = if fy < canvas.padding {
            s2.push((self.wall_code(0), self.point.y - canvas.padding))
        } else {
            s2
        };
        if fy > canvas.height - canvas.padding {
            s3.push((self.wall_code(2), canvas.height - canvas.padding - self.point.y))
        } else {
            s3
        }
    }

    /// Whether the agent stands within ten paddings of a canvas corner,
    /// where the encoded-angle heuristic thrashes.
    pub open spec fn near_corner(self, canvas: Canvas) -> bool {
        (self.point.x < canvas.padding * 10 || self.point.x > canvas.width - canvas.padding * 10)
            && (self.point.y < canvas.padding * 10 || self.point.y > canvas.height - canvas.padding
            * 10)
    }

    /// The smallest axis distance from the agent to a padded border.
    pub open spec fn corner_distance(self, canvas: Canvas) -> int {
        let mx = crate::fixed::min_spec(
            crate::fixed::abs_spec(self.point.x - canvas.padding),
            crate::fixed::abs_spec(self.point.x - canvas.width + canvas.padding),
        );
        let my = crate::fixed::min_spec(
            crate::fixed::abs_spec(self.point.y - canvas.padding),
            crate::fixed::abs_spec(self.point.y - canvas.height + canvas.padding),
        );
        crate::fixed::min_spec(mx, my)
    }

    /// The turn away from a wall with encoded angle `e`: the sign of the
    /// shortest arc from zero to `e`, except that an exactly head-on
    /// crossing (encoded angle zero) veers positively rather than not at
    /// all, so an agent square against a wall still turns off it.
    pub open spec fn veer_sgn(e: int) -> int {
        if e == 0 {
            1
        } else {
            crate::angle::angle_sgn(e)
        }
    }

    /// Wall avoidance: whether a wall is ahead, the signed turn direction
    /// away from it, and the perpendicular distance to it.  One crossing
    /// decides directly; two crossings fall to the corner shortcut (keep
    /// turning the same way) or to the tie-break: the nearer wall when the
    /// distances differ by more than two paddings, else the wall whose
    /// prescribed turn is most opposed to the current heading, the earlier
    /// of the fixed order when even that ties.
    pub open spec fn wall_spec(self, canvas: Canvas) -> (bool, int, int) {
        let hits = self.wall_hits(canvas);
        if hits.len() == 0 {
            (false, 0, 0)
        } else if hits.len() == 1 {
            (true, Boid::veer_sgn(hits[0].0), hits[0].1)
        } else {
            if self.near_corner(canvas) {
                (
                    true,
                    crate::fixed::sgn(self.angular_speed.value as int),
                    self.corner_distance(canvas),
                )
            } else {
                let a = hits[0];
                let b = hits[1];
                let pick = if crate::fixed::abs_spec(a.1 - b.1) > 2 * canvas.padding {
                    if a.1 <= b.1 {
                        a
                    } else {
                        b
                    }
                } else {
                    if crate::angle::arc_dist(b.0, self.angle@) > crate::angle::arc_dist(
                        a.0,
                        self.angle@,
                    ) {
                        b
                    } else {
                        a
                    }
                };
                (true, Boid::veer_sgn(pick.0), pick.1)
            }
        }
    }

    /// Which wall the lookahead would cross, and how to veer off it.
    pub fn test_wall_visibility(&self, canvas: &Canvas) -> (r: (bool, i64, i64))
        requires
            self.vis_ready(),
            canvas.wf(),
        ensures
            r.0 == self.wall_spec(*canvas).0,
            r.1 == self.wall_spec(*canvas).1,
            r.2 == self.wall_spec(*canvas).2,
            -1 <= r.1 <= 1,
            -2 * MAX_DIM <= r.2 <= 2 * MAX_DIM,
    {
        proof {
            crate::trig::lemma_sin_bounds(self.angle@);
            crate::trig::lemma_sin_bounds(norm(self.angle@ + QUARTER_TURN));
            lemma_scaled_product_bounds(
                crate::trig::sin_spec(self.angle@),
                self.vision.radius as int,
            );
            lemma_scaled_product_bounds(
                crate::trig::cos_spec(self.angle@),
                self.vision.radius as int,
            );
            vstd::arithmetic::div_mod::lemma_div_pos_is_pos(
                self.angle@ * (SCALE as int),
                QUARTER_TURN as int,
            );
            vstd::arithmetic::div_mod::lemma_div_is_ordered(
                self.angle@ * (SCALE as int),
                (TAU as int) * (SCALE as int),
                QUARTER_TURN as int,
            );
            assert(self.angle@ * (SCALE as int) <= (TAU as int) * (SCALE as int))
                by (nonlinear_arith)
                requires
                    0 <= self.angle@ < TAU as int,
            ;
        }
        let fx = self.point.x - mul_div_floor(self.angle.sin(), self.vision.radius, SCALE);
        let fy = self.point.y - mul_div_floor(self.angle.cos(), self.vision.radius, SCALE);
        let quarters = mul_div_floor(self.angle.get(), SCALE, QUARTER_TURN);
        let hit_x: Option<(Angle, i64)> = if fx < canvas.padding {
            Some((Angle::new(quarters - SCALE), self.point.x - canvas.padding))
        } else if fx > canvas.width - canvas.padding {
            Some((Angle::new(quarters - 3 * SCALE), canvas.width - canvas.padding - self.point.x))
        } else {
            None
        };
        let hit_y: Option<(Angle, i64)> = if fy < canvas.padding {
            Some((Angle::new(quarters), self.point.y - canvas.padding))
        } else if fy > canvas.height - canvas.padding {
            Some((Angle::new(quarters - 2 * SCALE), canvas.height - canvas.padding - self.point.y))
        } else {
            None
        };
        let ghost hits = self.wall_hits(*canvas);
        match (hit_x, hit_y) {
            (None, None) => {
                proof {
                    assert(hits.len() == 0);
                }
                (false, 0, 0)
            },
            (Some((code, dist)), None) => {
                proof {
                    assert(hits.len() == 1 && hits[0] == (code@, dist as int));
                }
                (true, veer_direction(code), dist)
            },
            (None, Some((code, dist))) => {
                proof {
                    assert(hits.len() == 1 && hits[0] == (code@, dist as int));
                }
                (true, veer_direction(code), dist)
            },
            (Some((code_a, dist_a)), Some((code_b, dist_b))) => {
                proof {
                    assert(hits.len() == 2 && hits[0] == (code_a@, dist_a as int) && hits[1] == (
                    code_b@,
                    dist_b as int,
                    ));
                }
                if (self.point.x < canvas.padding * 10 || self.point.x > canvas.width
                    - canvas.padding * 10) && (self.point.y < canvas.padding * 10 || self.point.y
                    > canvas.height - canvas.padding * 10) {
                    let mx = crate::fixed::min_i64(crate::fixed::abs_diff(self.point.x, canvas.padding), crate::fixed::abs_diff(self.point.x, canvas.width - canvas.padding));
                    let my = crate::fixed::min_i64(crate::fixed::abs_diff(self.point.y, canvas.padding), crate::fixed::abs_diff(self.point.y, canvas.height - canvas.padding));
                    (true, crate::fixed::sign_i64(self.angular_speed.value), crate::fixed::min_i64(mx, my))
                } else {
                    let gap = crate::fixed::abs_diff(dist_a, dist_b);
                    let pick: (Angle, i64) = if gap > 2 * canvas.padding {
                        if dist_a <= dist_b {
                            (code_a, dist_a)
                        } else {
                            (code_b, dist_b)
                        }
                    } else {
                        if code_b.arc_distance(self.angle) > code_a.arc_distance(self.angle) {
                            (code_b, dist_b)
                        } else {
                            (code_a, dist_a)
                        }
                    };
                    (true, veer_direction(pick.0), pick.1)
                }
            },
        }
    }

    /// The wall distance floored to a small positive epsilon before a
    /// division: a tenth of the padding, at least one micro-unit.
    pub open spec fn wall_epsilon(canvas: Canvas) -> int {
        let e = canvas.padding / 10;
        if e >= 1 {
            e
        } else {
            1
        }
    }

    /// The angular and linear speed values after one tick's steering
    /// effects, capped by their envelopes: the default drift, then wall
    /// avoidance, then separation, then alignment (past four visible
    /// neighbours), then cohesion, in that mandated order.
    pub open spec fn speeds_after(self, canvas: Canvas, cands: Seq<Boid>, f: int) -> (int, int) {
        let ang0 = decay_spec(self.angular_speed.value as int, f as nat);
        let lin0 = self.linear_speed.value + DRIFT_ACCEL * f;
        let wall = self.wall_spec(canvas);
        let d_eff = if wall.2 >= Boid::wall_epsilon(canvas) {
            wall.2
        } else {
            Boid::wall_epsilon(canvas)
        };
        let ang1 = if wall.0 {
            ang0 + wall.1 * ((self.behaviors.avoid_obstacles * SCALE) / d_eff) * f
        } else {
            ang0
        };
        let lin1 = if wall.0 {
            lin0 - (DRIFT_ACCEL * wall.2 / (self.vision.radius as int)) * f
        } else {
            lin0
        };
        let visible = self.visible_seq(cands, Side::Both);
        let sep = self.closest_direction_spec(visible);
        let ang2 = if sep.0 {
            ang1 + sep.1 * self.behaviors.avoid_entity * f
        } else {
            ang1
        };
        let lin2 = if sep.0 {
            lin1 - DRIFT_ACCEL * f
        } else {
            lin1
        };
        let grp = self.group_direction_spec(visible);
        let ang3 = if grp.0 && grp.2 > 4 {
            ang2 + grp.1 * self.behaviors.follow_group * f
        } else {
            ang2
        };
        let den = self.density_direction_spec(visible);
        let ang4 = if den.0 {
            ang3 + den.1 * self.behaviors.go_to_group * f
        } else {
            ang3
        };
        let angf = crate::fixed::sgn(ang4) * crate::fixed::clamp_spec(
            crate::fixed::abs_spec(ang4),
            self.angular_speed.min as int,
            self.angular_speed.max as int,
        );
        let linf = crate::fixed::clamp_spec(
            lin2,
            self.linear_speed.min as int,
            self.linear_speed.max as int,
        );
        (angf, linf)
    }

    /// The heading after one tick: the capped angular speed, integrated.
    pub open spec fn heading_after(self, canvas: Canvas, cands: Seq<Boid>, f: int) -> int {
        norm(self.angle@ + self.speeds_after(canvas, cands, f).0 * f)
    }

    /// The position after one tick: the capped linear speed integrated
    /// along the new heading, then clamped into the padded rectangle.
    pub open spec fn pos_after(self, canvas: Canvas, cands: Seq<Boid>, f: int) -> (int, int) {
        let h = self.heading_after(canvas, cands, f);
        let lv = self.speeds_after(canvas, cands, f).1;
        let x1 = self.point.x - crate::trig::sin_spec(h) * lv * f / (SCALE as int);
        let y1 = self.point.y - crate::trig::cos_spec(h) * lv * f / (SCALE as int);
        (
            crate::fixed::clamp_spec(x1, canvas.padding as int, canvas.width - canvas.padding),
            crate::fixed::clamp_spec(y1, canvas.padding as int, canvas.height - canvas.padding),
        )
    }

    /// One tick of the agent: compose the steering effects onto the speed
    /// envelopes, cap them, integrate heading and position, clamp the
    /// position into the padded rectangle, and let the visual angle follow.
    #[verifier::rlimit(100)]
    pub fn update(&mut self, canvas: &Canvas, boids: &Vec<Boid>, frames: u32)
        requires
            old(self).wf_state(),
            old(self).in_bounds(*canvas),
            canvas.wf(),
            frames <= 1000,
            flock_ok(boids@),
        ensures
            is_step_of(*old(self), *final(self), *canvas, boids@, frames as int),
            final(self).wf_state(),
            final(self).in_bounds(*canvas),
    {
        let ghost start = *self;
        let ghost g_speeds = start.speeds_after(*canvas, boids@, frames as int);
        let f: i64 = frames as i64;

        let ang0: i64 = decay_value(self.angular_speed.value, frames);
        let mut ang_acc: i128 = ang0 as i128;
        let mut lin_acc: i128 = self.linear_speed.value as i128 + (DRIFT_ACCEL as i128) * (
        f as i128);
        let ghost g_ang0 = decay_spec(start.angular_speed.value as int, frames as nat);
        let ghost g_lin0 = start.linear_speed.value + DRIFT_ACCEL * (frames as int);
        proof {
            assert(ang_acc == g_ang0);
            assert(lin_acc == g_lin0);
        }

        let (sees_wall, wall_sign, wall_distance) = self.test_wall_visibility(canvas);
        if sees_wall {
            let tenth = canvas.padding / 10;
            let epsilon = if tenth >= 1 {
                tenth
            } else {
                1
            };
            let d_eff = if wall_distance >= epsilon {
                wall_distance
            } else {
                epsilon
            };
            proof {
                vstd::arithmetic::div_mod::lemma_div_pos_is_pos(
                    self.behaviors.avoid_obstacles * (SCALE as int),
                    d_eff as int,
                );
                lemma_div_shrinks(self.behaviors.avoid_obstacles * (SCALE as int), d_eff as int);
                assert(self.behaviors.avoid_obstacles * (SCALE as int) <= 10_000_000_000_000)
                    by (nonlinear_arith)
                    requires
                        0 <= self.behaviors.avoid_obstacles <= 10 * SCALE,
                        SCALE == 1_000_000,
                ;
            }
            let wall_turn = mul_div_floor(self.behaviors.avoid_obstacles, SCALE, d_eff);
            proof {
                assert(-10_000_000_000_000_000 <= (wall_sign as int) * (wall_turn as int) * (
                f as int) <= 10_000_000_000_000_000 && -10_000_000_000_000 <= (wall_sign as int) * (
                wall_turn as int) <= 10_000_000_000_000) by (nonlinear_arith)
                    requires
                        -1 <= wall_sign <= 1,
                        0 <= wall_turn <= 10_000_000_000_000,
                        0 <= f <= 1000,
                ;
            }
            ang_acc = ang_acc + (wall_sign as i128) * (wall_turn as i128) * (f as i128);
            proof {
                assert(-0x1_0000_0000_0000_0000 <= DRIFT_ACCEL as int * wall_distance
                    <= 0x1_0000_0000_0000_0000) by (nonlinear_arith)
                    requires
                        -2 * MAX_DIM <= wall_distance <= 2 * MAX_DIM,
                        DRIFT_ACCEL == 30_000,
                        MAX_DIM == 1_000_000_000_000,
                ;
                lemma_div_magnitude(DRIFT_ACCEL as int * wall_distance, self.vision.radius as int);
            }
            let wall_slow = mul_div_floor(DRIFT_ACCEL, wall_distance, self.vision.radius);
            proof {
                assert(-0x4000_0000_0000_0000_0000 <= (wall_slow as int) * (f as int)
                    <= 0x4000_0000_0000_0000_0000) by (nonlinear_arith)
                    requires
                        -0x1_0000_0000_0000_0000 <= wall_slow <= 0x1_0000_0000_0000_0000,
                        0 <= f <= 1000,
                ;
            }
            lin_acc = lin_acc - (wall_slow as i128) * (f as i128);
        }
        let ghost g_wall = start.wall_spec(*canvas);
        let ghost g_deff = if g_wall.2 >= Boid::wall_epsilon(*canvas) {
            g_wall.2
        } else {
            Boid::wall_epsilon(*canvas)
        };
        let ghost g_ang1 = if g_wall.0 {
            g_ang0 + g_wall.1 * ((start.behaviors.avoid_obstacles * SCALE) / g_deff) * (
            frames as int)
        } else {
            g_ang0
        };
        let ghost g_lin1 = if g_wall.0 {
            g_lin0 - (DRIFT_ACCEL * g_wall.2 / (start.vision.radius as int)) * (frames as int)
        } else {
            g_lin0
        };
        proof {
            assert(ang_acc == g_ang1);
            assert(lin_acc == g_lin1);
        }

        let visible = self.filter_points_by_visibility(boids, Side::Both);
        let ghost g_visible = start.visible_seq(boids@, Side::Both);
        proof {
            assert(visible@ == g_visible);
            lemma_flock_ok_filter(
                boids@,
                |b: Boid| b.id != start.id && start.sees_spec(b.point, Side::Both),
            );
        }

        let (too_close, separation_dir) = self.find_closest_direction(&visible);
        if too_close {
            proof {
                lemma_steering_term_bounds(
                    separation_dir as int,
                    self.behaviors.avoid_entity as int,
                    f as int,
                );
            }
            ang_acc = ang_acc + (separation_dir as i128) * (self.behaviors.avoid_entity as i128) * (
            f as i128);
            lin_acc = lin_acc - (DRIFT_ACCEL as i128) * (f as i128);
        }
        let ghost g_sep = start.closest_direction_spec(g_visible);
        let ghost g_ang2 = if g_sep.0 {
            g_ang1 + g_sep.1 * start.behaviors.avoid_entity * (frames as int)
        } else {
            g_ang1
        };
        let ghost g_lin2 = if g_sep.0 {
            g_lin1 - DRIFT_ACCEL * (frames as int)
        } else {
            g_lin1
        };
        proof {
            assert(ang_acc == g_ang2);
            assert(lin_acc == g_lin2);
        }

        let (sees_group, alignment_dir, count) = self.find_group_direction(&visible);
        if sees_group && count > 4 {
            proof {
                lemma_steering_term_bounds(
                    alignment_dir as int,
                    self.behaviors.follow_group as int,
                    f as int,
                );
            }
            ang_acc = ang_acc + (alignment_dir as i128) * (self.behaviors.follow_group as i128) * (
            f as i128);
        }
        let ghost g_grp = start.group_direction_spec(g_visible);
        let ghost g_ang3 = if g_grp.0 && g_grp.2 > 4 {
            g_ang2 + g_grp.1 * start.behaviors.follow_group * (frames as int)
        } else {
            g_ang2
        };
        proof {
            assert(ang_acc == g_ang3);
        }

        let (sees_side, cohesion_dir) = self.find_density_direction(&visible);
        if sees_side {
            proof {
                lemma_steering_term_bounds(
                    cohesion_dir as int,
                    self.behaviors.go_to_group as int,
                    f as int,
                );
            }
            ang_acc = ang_acc + (cohesion_dir as i128) * (self.behaviors.go_to_group as i128) * (
            f as i128);
        }
        let ghost g_den = start.density_direction_spec(g_visible);
        let ghost g_ang4 = if g_den.0 {
            g_ang3 + g_den.1 * start.behaviors.go_to_group * (frames as int)
        } else {
            g_ang3
        };
        proof {
            assert(ang_acc == g_ang4);
        }

        let ang_magnitude: i128 = if ang_acc >= 0 {
            ang_acc
        } else {
            -ang_acc
        };
        let clamped_magnitude: i64 = if ang_magnitude > self.angular_speed.max as i128 {
            self.angular_speed.max
        } else if ang_magnitude < self.angular_speed.min as i128 {
            self.angular_speed.min
        } else {
            ang_magnitude as i64
        };
        let ang_final: i64 = if ang_acc > 0 {
            clamped_magnitude
        } else if ang_acc < 0 {
            -clamped_magnitude
        } else {
            0
        };
        let lin_final: i64 = if lin_acc > self.linear_speed.max as i128 {
            self.linear_speed.max
        } else if lin_acc < self.linear_speed.min as i128 {
            self.linear_speed.min
        } else {
            lin_acc as i64
        };
        proof {
            lemma_signed_clamp(
                g_ang4,
                start.angular_speed.min as int,
                start.angular_speed.max as int,
            );
            assert(ang_final as int == crate::fixed::sgn(g_ang4) * crate::fixed::clamp_spec(
                crate::fixed::abs_spec(g_ang4),
                start.angular_speed.min as int,
                start.angular_speed.max as int,
            ));
            assert(lin_final as int == crate::fixed::clamp_spec(
                g_lin2,
                start.linear_speed.min as int,
                start.linear_speed.max as int,
            ));
            assert(ang_final as int == g_speeds.0);
            assert(lin_final as int == g_speeds.1);
        }
        self.angular_speed.value = ang_final;
        self.linear_speed.value = lin_final;

        proof {
            assert(-6_283_184_000 <= (ang_final as int) * (f as int) <= 6_283_184_000)
                by (nonlinear_arith)
                requires
                    -6_283_184 <= ang_final <= 6_283_184,
                    0 <= f <= 1000,
            ;
        }
        let turn: i64 = ang_final * f;
        self.angle = self.angle.add_i64(turn);
        proof {
            assert(turn as int == g_speeds.0 * (frames as int));
            assert(self.angle@ == start.heading_after(*canvas, boids@, frames as int));
            crate::trig::lemma_sin_bounds(self.angle@);
            crate::trig::lemma_sin_bounds(norm(self.angle@ + QUARTER_TURN));
            lemma_displacement_bounds(
                crate::trig::sin_spec(self.angle@),
                lin_final as int,
                f as int,
            );
            lemma_displacement_bounds(
                crate::trig::cos_spec(self.angle@),
                lin_final as int,
                f as int,
            );
        }
        let step_x = crate::fixed::mul3_div_floor(self.angle.sin(), lin_final, f, SCALE);
        let step_y = crate::fixed::mul3_div_floor(self.angle.cos(), lin_final, f, SCALE);
        self.point.x = crate::fixed::clamp_i64(
            self.point.x - step_x,
            canvas.padding,
            canvas.width - canvas.padding,
        );
        self.point.y = crate::fixed::clamp_i64(
            self.point.y - step_y,
            canvas.padding,
            canvas.height - canvas.padding,
        );
        proof {
            assert(self.point.x == start.pos_after(*canvas, boids@, frames as int).0);
            assert(self.point.y == start.pos_after(*canvas, boids@, frames as int).1);
        }

        self.update_drawing_angle(frames);
    }

    /// Moves the visual angle toward the true heading, by at most a 45th
    /// of a turn per frame, so rendering never snaps; an aligned angle
    /// stays exactly on the heading.
    pub fn update_drawing_angle(&mut self, frames: u32)
        requires
            old(self).angle.wf(),
            old(self).body.angle.wf(),
            frames <= 1000,
        ensures
            *final(self) == (Boid {
                body: Body { angle: final(self).body.angle, ..old(self).body },
                ..*old(self)
            }),
            final(self).body.angle@ == drawing_angle_spec(
                old(self).angle@,
                old(self).body.angle@,
                frames as int,
            ),
            final(self).body.angle.wf(),
    {
        let difference = self.angle.sub(self.body.angle);
        let limit: i64 = TURN_RATE * frames as i64;
        let capped: i64 = if difference.get() == 0 {
            0
        } else if difference.signum() > 0 {
            difference.min(limit)
        } else {
            difference.max(TAU - limit)
        };
        self.body.angle = self.body.angle.add_i64(capped);
    }

    /// The three corners of the triangle that renders the agent: the tip
    /// opposite the base, then the two base corners, each offset from the
    /// position so the triangle is centred on it.  Mirrors the host's
    /// drawing geometry: nine tenths of the body size ahead, the base as
    /// wide as the body, all along the visual angle.
    pub open spec fn drawing_data_spec(self) -> ((int, int), (int, int), (int, int)) {
        let ds = self.body.size * 9 / 10;
        let dw = self.body.width as int;
        let a = self.body.angle@;
        let cx = crate::trig::sin_spec(a) * ds / (2 * SCALE);
        let cy = crate::trig::cos_spec(a) * ds / (2 * SCALE);
        let hyp = crate::trig::sqrt_floor((ds * ds + (dw / 2) * (dw / 2)) as nat) as int;
        let half = crate::trig::asin_unit_spec(dw * SCALE / (2 * ds));
        let a2 = norm(QUARTER_TURN - a - half);
        let a3 = norm(a - half);
        (
            (self.point.x - cx, self.point.y - cy),
            (
                self.point.x + crate::trig::cos_spec(a2) * hyp / (SCALE as int) - cx,
                self.point.y + crate::trig::sin_spec(a2) * hyp / (SCALE as int) - cy,
            ),
            (
                self.point.x + crate::trig::sin_spec(a3) * hyp / (SCALE as int) - cx,
                self.point.y + crate::trig::cos_spec(a3) * hyp / (SCALE as int) - cy,
            ),
        )
    }

    /// The rendering triangle of the agent, as three positions.
    pub fn get_drawing_data(&self) -> (r: ((i64, i64), (i64, i64), (i64, i64)))
        requires
            2 <= self.body.size <= MAX_SIZE,
            0 <= self.body.width <= MAX_SIZE,
            self.body.width <= 2 * (self.body.size * 9 / 10),
            self.body.angle.wf(),
            -MAX_DIM <= self.point.x <= MAX_DIM,
            -MAX_DIM <= self.point.y <= MAX_DIM,
        ensures
            r.0.0 == self.drawing_data_spec().0.0,
            r.0.1 == self.drawing_data_spec().0.1,
            r.1.0 == self.drawing_data_spec().1.0,
            r.1.1 == self.drawing_data_spec().1.1,
            r.2.0 == self.drawing_data_spec().2.0,
            r.2.1 == self.drawing_data_spec().2.1,
    {
        let ds = self.body.size * 9 / 10;
        let dw = self.body.width;
        proof {
            crate::trig::lemma_sin_bounds(self.body.angle@);
            crate::trig::lemma_sin_bounds(norm(self.body.angle@ + QUARTER_TURN));
            lemma_div_shrinks(self.body.size * 9, 10);
            vstd::arithmetic::div_mod::lemma_div_is_ordered(
                self.body.size * 9,
                MAX_SIZE as int * 9,
                10,
            );
            assert(MAX_SIZE as int * 9 / 10 == 900_000_000);
            assert(-(SCALE as int) * (9 * MAX_SIZE as int) <= crate::trig::sin_spec(
                self.body.angle@,
            ) * (ds as int) <= (SCALE as int) * (9 * MAX_SIZE as int) && -(SCALE as int) * (9
                * MAX_SIZE as int) <= crate::trig::cos_spec(self.body.angle@) * (ds as int) <= (
            SCALE as int) * (9 * MAX_SIZE as int)) by (nonlinear_arith)
                requires
                    -(SCALE as int) <= crate::trig::sin_spec(self.body.angle@) <= SCALE as int,
                    -(SCALE as int) <= crate::trig::cos_spec(self.body.angle@) <= SCALE as int,
                    0 <= ds <= 9 * MAX_SIZE as int,
            ;
            lemma_div_magnitude(
                crate::trig::sin_spec(self.body.angle@) * (ds as int),
                2 * SCALE as int,
            );
            lemma_div_magnitude(
                crate::trig::cos_spec(self.body.angle@) * (ds as int),
                2 * SCALE as int,
            );
        }
        let cx = mul_div_floor(self.body.angle.sin(), ds, 2 * SCALE);
        let cy = mul_div_floor(self.body.angle.cos(), ds, 2 * SCALE);
        let half_w = dw / 2;
        proof {
            assert(0 <= (ds as int) * (ds as int) + (half_w as int) * (half_w as int)
                <= 0x1000_0000_0000_0000) by (nonlinear_arith)
                requires
                    0 <= ds <= 900_000_000,
                    0 <= half_w <= 500_000_000,
            ;
        }
        let hyp_sq: u64 = (ds as u64) * (ds as u64) + (half_w as u64) * (half_w as u64);
        let hyp_w = crate::trig::isqrt(hyp_sq);
        proof {
            crate::trig::lemma_sqrt_floor(hyp_sq as nat);
            assert(crate::trig::sqrt_floor(hyp_sq as nat) <= 2_000_000_000) by {
                let s = crate::trig::sqrt_floor(hyp_sq as nat);
                assert(s <= 2_000_000_000) by (nonlinear_arith)
                    requires
                        s * s <= 0x1000_0000_0000_0000,
                ;
            }
            crate::trig::lemma_ratio_unit(dw as int, 2 * ds as int);
        }
        let hyp = hyp_w as i64;
        let z = mul_div_floor(dw, SCALE, 2 * ds);
        let half_angle = crate::trig::asin_unit(z);
        let a2 = Angle::new(QUARTER_TURN - self.body.angle.get() - half_angle);
        let a3 = Angle::new(self.body.angle.get() - half_angle);
        proof {
            crate::trig::lemma_sin_bounds(a2@);
            crate::trig::lemma_sin_bounds(norm(a2@ + QUARTER_TURN));
            crate::trig::lemma_sin_bounds(a3@);
            crate::trig::lemma_sin_bounds(norm(a3@ + QUARTER_TURN));
            lemma_scaled_product_bounds(crate::trig::cos_spec(a2@), hyp as int);
            lemma_scaled_product_bounds(crate::trig::sin_spec(a2@), hyp as int);
            lemma_scaled_product_bounds(crate::trig::sin_spec(a3@), hyp as int);
            lemma_scaled_product_bounds(crate::trig::cos_spec(a3@), hyp as int);
        }
        let rx = mul_div_floor(a2.cos(), hyp, SCALE);
        let ry = mul_div_floor(a2.sin(), hyp, SCALE);
        let lx = mul_div_floor(a3.sin(), hyp, SCALE);
        let ly = mul_div_floor(a3.cos(), hyp, SCALE);
        (
            (self.point.x - cx, self.point.y - cy),
            (self.point.x + rx - cx, self.point.y + ry - cy),
            (self.point.x + lx - cx, self.point.y + ly - cy),
        )
    }

    /// The edges from the agent to every candidate it sees, for the debug
    /// view: one line per visible candidate, in candidate order.
    pub fn connection_edges(&self, boids: &Vec<Boid>) -> (v: Vec<(Point, Point)>)
        requires
            self.vis_ready(),
            forall|i: int|
                0 <= i < boids@.len() ==> -2 * MAX_DIM <= #[trigger] boids@[i].point.x <= 2
                    * MAX_DIM && -2 * MAX_DIM <= boids@[i].point.y <= 2 * MAX_DIM,
        ensures
            v@.len() == self.visible_seq(boids@, Side::Both).len(),
            forall|i: int|
                0 <= i < v@.len() ==> #[trigger] v@[i] == (
                    self.point,
                    self.visible_seq(boids@, Side::Both)[i].point,
                ),
    {
        let visible = self.filter_points_by_visibility(boids, Side::Both);
        let mut edges: Vec<(Point, Point)> = Vec::new();
        let mut i: usize = 0;
        while i < visible.len()
            invariant
                i <= visible@.len(),
                edges@.len() == i,
                forall|j: int|
                    0 <= j < i ==> #[trigger] edges@[j] == (self.point, visible@[j].point),
            decreases visible@.len() - i,
        {
            edges.push((self.point, visible[i].point));
            i = i + 1;
        }
        edges
    }

    /// The two arc angles that bound the drawn field of view, each a
    /// quarter turn behind the reflected visual angle, half the aperture to
    /// either side.
    pub fn field_of_view_arc(&self) -> (r: (Angle, Angle))
        requires
            self.body.angle.wf(),
            self.vision.radians.wf(),
        ensures
            r.0@ == norm(
                crate::angle::neg_spec(self.body.angle@) + self.vision.radians@ / 2 - QUARTER_TURN,
            ),
            r.1@ == norm(
                crate::angle::neg_spec(self.body.angle@) - self.vision.radians@ / 2 - QUARTER_TURN,
            ),
    {
        let reflected = self.body.angle.neg();
        let half = self.vision.radians.get() / 2;
        let from = Angle::new(reflected.get() + half - QUARTER_TURN);
        let to = Angle::new(reflected.get() - half - QUARTER_TURN);
        (from, to)
    }

    /// Seeing on either side is exactly seeing on the left or on the right:
    /// the union of the two half-cones is the whole field of view.
    pub proof fn lemma_sides_partition_view(self, p: Point)
        ensures
            self.sees_spec(p, Side::Both) <==> (self.sees_spec(p, Side::Left) || self.sees_spec(
                p,
                Side::Right,
            )),
    {
    }

    /// Nothing strictly beyond the sight range is visible, whatever the
    /// side and wherever the agent points.
    pub proof fn lemma_out_of_range_invisible(self, p: Point, side: Side)
        requires
            dist_sq(self.point, p) > self.vision.radius * self.vision.radius,
        ensures
            !self.sees_spec(p, side),
    {
    }
}

/// One frame of the default drift on the angular speed: the magnitude
/// scaled by 0.85, the sign kept.
pub open spec fn decay_once(v: int) -> int {
    if v >= 0 {
        v * 85 / 100
    } else {
        -((-v) * 85 / 100)
    }
}

/// The angular speed after `f` frames of default drift.
pub open spec fn decay_spec(v: int, f: nat) -> int
    decreases f,
{
    if f == 0 {
        v
    } else {
        decay_once(decay_spec(v, (f - 1) as nat))
    }
}

/// One frame of drift shrinks the magnitude to at most 85 hundredths.
pub proof fn lemma_decay_once_bounds(v: int)
    ensures
        crate::fixed::abs_spec(decay_once(v)) == crate::fixed::abs_spec(v) * 85 / 100,
        crate::fixed::abs_spec(decay_once(v)) <= crate::fixed::abs_spec(v),
        100 * crate::fixed::abs_spec(decay_once(v)) <= 85 * crate::fixed::abs_spec(v),
{
    let m = crate::fixed::abs_spec(v);
    vstd::arithmetic::div_mod::lemma_div_pos_is_pos(m * 85, 100);
    vstd::arithmetic::div_mod::lemma_div_is_ordered(m * 85, m * 100, 100);
    assert(m * 85 <= m * 100) by (nonlinear_arith)
        requires
            m >= 0,
    ;
    assert(m * 100 == 100 * m) by (nonlinear_arith);
    vstd::arithmetic::div_mod::lemma_div_multiples_vanish(m, 100);
    vstd::arithmetic::div_mod::lemma_fundamental_div_mod(m * 85, 100);
    vstd::arithmetic::div_mod::lemma_mod_bound(m * 85, 100);
}

/// Drift never grows the magnitude, over any number of frames.
pub proof fn lemma_decay_spec_bounds(v: int, f: nat)
    ensures
        crate::fixed::abs_spec(decay_spec(v, f)) <= crate::fixed::abs_spec(v),
    decreases f,
{
    if f > 0 {
        lemma_decay_spec_bounds(v, (f - 1) as nat);
        lemma_decay_once_bounds(decay_spec(v, (f - 1) as nat));
    }
}

/// The angular speed after the default drift, exactly.
fn decay_value(v: i64, frames: u32) -> (r: i64)
    requires
        -MAX_SPEED <= v <= MAX_SPEED,
    ensures
        r == decay_spec(v as int, frames as nat),
        crate::fixed::abs_spec(r as int) <= crate::fixed::abs_spec(v as int),
{
    proof {
        lemma_decay_spec_bounds(v as int, frames as nat);
    }
    let mut acc: i64 = v;
    let mut i: u32 = 0;
    while i < frames
        invariant
            i <= frames,
            acc == decay_spec(v as int, i as nat),
            -MAX_SPEED <= v <= MAX_SPEED,
            crate::fixed::abs_spec(acc as int) <= crate::fixed::abs_spec(v as int),
        decreases frames - i,
    {
        proof {
            lemma_decay_once_bounds(acc as int);
        }
        let magnitude = if acc >= 0 {
            acc
        } else {
            -acc
        };
        let shrunk = magnitude * 85 / 100;
        acc = if acc >= 0 {
            shrunk
        } else {
            -shrunk
        };
        i = i + 1;
    }
    acc
}

/// The total steering mass of a group of agents.
pub open spec fn weight_sum(s: Seq<Boid>) -> int
    decreases s.len(),
{
    if s.len() == 0 {
        0
    } else {
        weight_sum(s.drop_last()) + s.last().weight
    }
}

/// The mass-weighted total of the group's headings, as raw scalars.
pub open spec fn heading_weight_sum(s: Seq<Boid>) -> int
    decreases s.len(),
{
    if s.len() == 0 {
        0
    } else {
        heading_weight_sum(s.drop_last()) + s.last().angle@ * s.last().weight
    }
}

/// Every agent of the group is well formed and stands within the doubled
/// coordinate range that the visibility arithmetic admits.
pub open spec fn flock_ok(s: Seq<Boid>) -> bool {
    forall|i: int|
        0 <= i < s.len() ==> (#[trigger] s[i]).wf_state() && -2 * MAX_DIM <= s[i].point.x <= 2
            * MAX_DIM && -2 * MAX_DIM <= s[i].point.y <= 2 * MAX_DIM
}

/// A filtered group keeps its well-formedness.
pub proof fn lemma_flock_ok_filter(s: Seq<Boid>, pred: spec_fn(Boid) -> bool)
    requires
        flock_ok(s),
    ensures
        flock_ok(s.filter(pred)),
    decreases s.len(),
{
    reveal(Seq::filter);
    if s.len() > 0 {
        assert(flock_ok(s.drop_last())) by {
            assert(forall|i: int|
                0 <= i < s.drop_last().len() ==> #[trigger] s.drop_last()[i] == s[i]);
        }
        lemma_flock_ok_filter(s.drop_last(), pred);
        let sub = s.drop_last().filter(pred);
        if pred(s.last()) {
            assert(forall|i: int|
                0 <= i < sub.push(s.last()).len() ==> #[trigger] sub.push(s.last())[i] == if i
                    < sub.len() {
                    sub[i]
                } else {
                    s.last()
                });
        }
    }
}

/// The total mass of a well-formed group lies between one and two times
/// its member count.
pub proof fn lemma_weight_sum_bounds(s: Seq<Boid>)
    requires
        flock_ok(s),
    ensures
        SCALE * s.len() <= weight_sum(s) <= 2 * SCALE * s.len(),
    decreases s.len(),
{
    if s.len() > 0 {
        assert(flock_ok(s.drop_last())) by {
            assert(forall|i: int|
                0 <= i < s.drop_last().len() ==> #[trigger] s.drop_last()[i] == s[i]);
        }
        lemma_weight_sum_bounds(s.drop_last());
        assert(s[s.len() - 1].wf_state());
        assert(s.last() == s[s.len() - 1]);
    }
}

/// The weighted heading total of a well-formed group is non-negative and
/// stays under a full turn times the total mass.
pub proof fn lemma_heading_weight_sum_bounds(s: Seq<Boid>)
    requires
        flock_ok(s),
    ensures
        0 <= heading_weight_sum(s) <= (TAU - 1) * weight_sum(s),
    decreases s.len(),
{
    if s.len() > 0 {
        assert(flock_ok(s.drop_last())) by {
            assert(forall|i: int|
                0 <= i < s.drop_last().len() ==> #[trigger] s.drop_last()[i] == s[i]);
        }
        lemma_heading_weight_sum_bounds(s.drop_last());
        lemma_weight_sum_bounds(s.drop_last());
        assert(s[s.len() - 1].wf_state());
        assert(s.last() == s[s.len() - 1]);
        let a = s.last().angle@;
        let w = s.last().weight as int;
        assert(0 <= a * w <= (TAU - 1) * w) by (nonlinear_arith)
            requires
                0 <= a <= TAU - 1,
                0 < w,
        ;
        assert((TAU - 1) * weight_sum(s.drop_last()) + (TAU - 1) * w == (TAU - 1) * (weight_sum(
            s.drop_last(),
        ) + w)) by (nonlinear_arith);
        assert(0 <= (TAU - 1) * weight_sum(s.drop_last())) by (nonlinear_arith)
            requires
                weight_sum(s.drop_last()) >= 0,
        ;
    }
}

/// The total mass of a group, exactly.
fn sum_weights(boids: &Vec<Boid>) -> (r: i128)
    requires
        flock_ok(boids@),
    ensures
        r == weight_sum(boids@),
        0 <= r,
        boids@.len() > 0 ==> r >= SCALE,
{
    proof {
        lemma_weight_sum_bounds(boids@);
    }
    let mut total: i128 = 0;
    let mut i: usize = 0;
    while i < boids.len()
        invariant
            i <= boids@.len(),
            total == weight_sum(boids@.subrange(0, i as int)),
            0 <= total <= 2_000_000 * i,
            flock_ok(boids@),
        decreases boids@.len() - i,
    {
        proof {
            let pre = boids@.subrange(0, i as int);
            let cur = boids@.subrange(0, i + 1);
            assert(cur.drop_last() =~= pre);
            assert(cur.last() == boids@[i as int]);
            assert(boids@[i as int].wf_state());
        }
        total = total + boids[i].weight as i128;
        i = i + 1;
    }
    proof {
        assert(boids@.subrange(0, boids@.len() as int) =~= boids@);
    }
    total
}

/// The mass-weighted heading total of a group, exactly.
fn sum_heading_weights(boids: &Vec<Boid>) -> (r: i128)
    requires
        flock_ok(boids@),
    ensures
        r == heading_weight_sum(boids@),
        0 <= r,
{
    proof {
        lemma_heading_weight_sum_bounds(boids@);
    }
    let mut total: i128 = 0;
    let mut i: usize = 0;
    while i < boids.len()
        invariant
            i <= boids@.len(),
            total == heading_weight_sum(boids@.subrange(0, i as int)),
            0 <= total <= 12_566_368_000_000 * i,
            flock_ok(boids@),
        decreases boids@.len() - i,
    {
        proof {
            let pre = boids@.subrange(0, i as int);
            let cur = boids@.subrange(0, i + 1);
            assert(cur.drop_last() =~= pre);
            assert(cur.last() == boids@[i as int]);
            let b = boids@[i as int];
            assert(b.wf_state());
            assert(0 <= b.angle@ * b.weight <= 12_566_368_000_000) by (nonlinear_arith)
                requires
                    0 <= b.angle@ < TAU,
                    0 < b.weight <= 2 * SCALE,
            ;
        }
        let b = &boids[i];
        total = total + (b.angle.get() as i128) * (b.weight as i128);
        i = i + 1;
    }
    proof {
        assert(boids@.subrange(0, boids@.len() as int) =~= boids@);
    }
    total
}

/// With no wall ahead and nobody visible, a tick only drifts the angular
/// speed: its magnitude after the tick is at most the drifted magnitude,
/// which one frame multiplies by 0.85 — so over empty ticks the angular
/// speed decays geometrically.
pub proof fn lemma_empty_surroundings_decay(b: Boid, canvas: Canvas, cands: Seq<Boid>, f: int)
    requires
        b.wf_state(),
        !b.wall_spec(canvas).0,
        b.visible_seq(cands, Side::Both).len() == 0,
        0 <= f,
    ensures
        crate::fixed::abs_spec(b.speeds_after(canvas, cands, f).0) <= crate::fixed::abs_spec(
            decay_spec(b.angular_speed.value as int, f as nat),
        ),
        crate::fixed::abs_spec(b.speeds_after(canvas, cands, f).0) <= crate::fixed::abs_spec(
            b.angular_speed.value as int,
        ),
        f == 1 ==> 100 * crate::fixed::abs_spec(b.speeds_after(canvas, cands, f).0) <= 85
            * crate::fixed::abs_spec(b.angular_speed.value as int),
{
    let visible = b.visible_seq(cands, Side::Both);
    let ang0 = decay_spec(b.angular_speed.value as int, f as nat);
    reveal(Seq::filter);
    assert(b.too_close_seq(visible).len() == 0);
    assert(b.visible_seq(visible, Side::Left).len() == 0);
    assert(b.visible_seq(visible, Side::Right).len() == 0);
    lemma_signed_clamp(ang0, b.angular_speed.min as int, b.angular_speed.max as int);
    lemma_decay_spec_bounds(b.angular_speed.value as int, f as nat);
    if f == 1 {
        lemma_decay_once_bounds(b.angular_speed.value as int);
        assert(decay_spec(b.angular_speed.value as int, 1nat) == decay_once(
            b.angular_speed.value as int,
        )) by {
            reveal_with_fuel(decay_spec, 2);
        }
    }
}

/// The executable turn-away sign of an encoded wall angle.
fn veer_direction(code: Angle) -> (r: i64)
    requires
        code.wf(),
    ensures
        r == Boid::veer_sgn(code@),
        -1 <= r <= 1,
{
    if code.get() == 0 {
        1
    } else {
        code.signum()
    }
}

/// How one tick relates an agent's new state to its old one: the speed
/// values follow the steering model, heading and position follow the
/// integration model, the visual angle follows the new heading, and every
/// other field is kept.
pub open spec fn is_step_of(
    pre: Boid,
    post: Boid,
    canvas: Canvas,
    cands: Seq<Boid>,
    f: int,
) -> bool {
    &&& post.angular_speed.value == pre.speeds_after(canvas, cands, f).0
    &&& post.linear_speed.value == pre.speeds_after(canvas, cands, f).1
    &&& post.angle@ == pre.heading_after(canvas, cands, f)
    &&& post.point.x == pre.pos_after(canvas, cands, f).0
    &&& post.point.y == pre.pos_after(canvas, cands, f).1
    &&& post.body.angle@ == drawing_angle_spec(post.angle@, pre.body.angle@, f)
    &&& post.id == pre.id
    &&& post.vision == pre.vision
    &&& post.weight == pre.weight
    &&& post.behaviors == pre.behaviors
    &&& post.body.size == pre.body.size
    &&& post.body.width == pre.body.width
    &&& post.body.color == pre.body.color
    &&& post.angular_speed.min == pre.angular_speed.min
    &&& post.angular_speed.max == pre.angular_speed.max
    &&& post.linear_speed.min == pre.linear_speed.min
    &&& post.linear_speed.max == pre.linear_speed.max
}

/// The visual angle after one move toward the heading: an already aligned
/// angle stays still; otherwise the normalized difference is capped at a
/// 45th of a turn per frame on the short side and folded back across the
/// wrap on the long side, then added on.
pub open spec fn drawing_angle_spec(heading: int, body_angle: int, f: int) -> int {
    let diff = norm(heading - body_angle);
    let limit = TURN_RATE * f;
    let capped = if diff == 0 {
        0
    } else if crate::angle::angle_sgn(diff) > 0 {
        crate::fixed::min_spec(diff, limit)
    } else {
        if diff >= TAU - limit {
            diff
        } else {
            TAU - limit
        }
    };
    norm(body_angle + capped)
}

/// The channels of the body color recovered from the angular ceiling.
pub open spec fn color_of_ceiling(ceiling: int) -> Rgb {
    let recovered = ceiling * 45 * (SCALE as int) / (TAU as int) - SCALE;
    let clamped = crate::fixed::clamp_spec(recovered, 0, SCALE as int);
    let purple = ((clamped * 180 + SCALE / 2) / (SCALE as int)) as u8;
    let green = (((SCALE - clamped) * 180 + SCALE / 2) / (SCALE as int)) as u8;
    Rgb { red: purple, green, blue: purple }
}

/// The signed clamp of a magnitude, written without the sign product.
proof fn lemma_signed_clamp(v: int, lo: int, hi: int)
    ensures
        crate::fixed::sgn(v) * crate::fixed::clamp_spec(crate::fixed::abs_spec(v), lo, hi) == (
        if v > 0 {
            crate::fixed::clamp_spec(crate::fixed::abs_spec(v), lo, hi)
        } else if v < 0 {
            -crate::fixed::clamp_spec(crate::fixed::abs_spec(v), lo, hi)
        } else {
            0
        }),
{
    let c = crate::fixed::clamp_spec(crate::fixed::abs_spec(v), lo, hi);
    let s = crate::fixed::sgn(v);
    if v > 0 {
        assert(s * c == c) by (nonlinear_arith)
            requires
                s == 1,
        ;
    } else if v < 0 {
        assert(s * c == -c) by (nonlinear_arith)
            requires
                s == -1,
        ;
    } else {
        assert(s * c == 0) by (nonlinear_arith)
            requires
                s == 0,
        ;
    }
}

/// A steering term, a direction times a gain times the frames, is small.
proof fn lemma_steering_term_bounds(dir: int, gain: int, f: int)
    requires
        -1 <= dir <= 1,
        0 <= gain <= 10 * SCALE,
        0 <= f <= 1000,
    ensures
        -10_000_000_000_000 <= dir * gain * f <= 10_000_000_000_000,
        -10_000_000 <= dir * gain <= 10_000_000,
{
    assert(-10_000_000_000_000 <= dir * gain * f <= 10_000_000_000_000 && -10_000_000 <= dir * gain
        <= 10_000_000) by (nonlinear_arith)
        requires
            -1 <= dir <= 1,
            0 <= gain <= 10 * SCALE,
            0 <= f <= 1000,
            SCALE == 1_000_000,
    ;
}

/// Dividing a non-negative value by at least one cannot grow it.
proof fn lemma_div_shrinks(x: int, d: int)
    requires
        0 <= x,
        1 <= d,
    ensures
        0 <= x / d <= x,
{
    vstd::arithmetic::div_mod::lemma_div_pos_is_pos(x, d);
    vstd::arithmetic::div_mod::lemma_fundamental_div_mod(x, d);
    vstd::arithmetic::div_mod::lemma_mod_bound(x, d);
    let q = x / d;
    assert(q <= d * q) by (nonlinear_arith)
        requires
            0 <= q,
            1 <= d,
    ;
}

/// Dividing by at least one cannot grow the magnitude, either way.
proof fn lemma_div_magnitude(x: int, d: int)
    requires
        1 <= d,
    ensures
        x >= 0 ==> 0 <= x / d <= x,
        x < 0 ==> x <= x / d <= 0,
{
    if x >= 0 {
        lemma_div_shrinks(x, d);
    } else {
        vstd::arithmetic::div_mod::lemma_fundamental_div_mod(x, d);
        vstd::arithmetic::div_mod::lemma_mod_bound(x, d);
        let q = x / d;
        let r = x % d;
        assert(q < 0) by (nonlinear_arith)
            requires
                d * q + r == x,
                x < 0,
                0 <= r < d,
                1 <= d,
        ;
        assert((d - 1) * q + r <= 0) by (nonlinear_arith)
            requires
                q <= -1,
                0 <= r <= d - 1,
                1 <= d,
        ;
        assert(x - q == (d - 1) * q + r) by (nonlinear_arith)
            requires
                d * q + r == x,
        ;
    }
}

/// A displacement `sin * speed * frames / SCALE` stays within one canvas
/// span, and the triple product within the helper's input bounds.
proof fn lemma_displacement_bounds(s: int, lv: int, f: int)
    requires
        -(SCALE as int) <= s <= SCALE as int,
        0 <= lv <= MAX_SPEED,
        0 <= f <= 1000,
    ensures
        -MAX_DIM <= s * lv * f / (SCALE as int) <= MAX_DIM,
{
    assert(-(SCALE as int) * MAX_SPEED * 1000 <= s * lv * f <= (SCALE as int) * MAX_SPEED * 1000
        && (SCALE as int) * MAX_SPEED * 1000 == (SCALE as int) * (MAX_SPEED * 1000))
        by (nonlinear_arith)
        requires
            -(SCALE as int) <= s <= SCALE as int,
            0 <= lv <= MAX_SPEED,
            0 <= f <= 1000,
            SCALE == 1_000_000,
            MAX_SPEED == 1_000_000_000,
    ;
    vstd::arithmetic::div_mod::lemma_div_is_ordered(
        s * lv * f,
        (SCALE as int) * (MAX_SPEED * 1000),
        SCALE as int,
    );
    vstd::arithmetic::div_mod::lemma_div_is_ordered(
        (SCALE as int) * (-(MAX_SPEED * 1000)),
        s * lv * f,
        SCALE as int,
    );
    vstd::arithmetic::div_mod::lemma_div_multiples_vanish(MAX_SPEED * 1000, SCALE as int);
    vstd::arithmetic::div_mod::lemma_div_multiples_vanish(-(MAX_SPEED * 1000), SCALE as int);
    assert((SCALE as int) * (-(MAX_SPEED * 1000)) == -(SCALE as int) * MAX_SPEED * 1000)
        by (nonlinear_arith);
}

/// A unit fraction times a bounded scalar, rescaled, keeps the bound.
proof fn lemma_scaled_product_bounds(v: int, r: int)
    requires
        -(SCALE as int) <= v <= SCALE as int,
        0 <= r <= MAX_DIM,
    ensures
        -r <= v * r / (SCALE as int) <= r,
{
    assert(-(SCALE as int) * r <= v * r <= (SCALE as int) * r) by (nonlinear_arith)
        requires
            -(SCALE as int) <= v <= SCALE as int,
            0 <= r,
    ;
    vstd::arithmetic::div_mod::lemma_div_is_ordered(v * r, (SCALE as int) * r, SCALE as int);
    vstd::arithmetic::div_mod::lemma_div_is_ordered(-(SCALE as int) * r, v * r, SCALE as int);
    vstd::arithmetic::div_mod::lemma_div_multiples_vanish(r, SCALE as int);
    vstd::arithmetic::div_mod::lemma_div_multiples_vanish(-r, SCALE as int);
    assert((SCALE as int) * (-r) == -(SCALE as int) * r) by (nonlinear_arith);
}

/// A fraction of `[0, SCALE)` scaled to a positive bound stays in range.
proof fn lemma_scaled_in_range(u: int, bound: int)
    requires
        0 <= u < SCALE,
        0 < bound <= MAX_DIM,
    ensures
        0 <= u * bound / (SCALE as int) < bound,
        u * bound / (SCALE as int) <= MAX_DIM,
{
    vstd::arithmetic::div_mod::lemma_div_pos_is_pos(u * bound, SCALE as int);
    assert(u * bound <= (SCALE as int - 1) * bound) by (nonlinear_arith)
        requires
            0 <= u < SCALE as int,
            0 < bound,
    ;
    vstd::arithmetic::div_mod::lemma_div_is_ordered(
        u * bound,
        (SCALE as int - 1) * bound,
        SCALE as int,
    );
    assert((SCALE as int - 1) * bound == SCALE as int * bound - bound) by (nonlinear_arith);
    vstd::arithmetic::div_mod::lemma_div_multiples_vanish(bound, SCALE as int);
    assert((SCALE as int * bound - bound) / (SCALE as int) < bound) by {
        vstd::arithmetic::div_mod::lemma_div_is_ordered(
            SCALE as int * bound - bound,
            SCALE as int * bound - 1,
            SCALE as int,
        );
        assert(SCALE as int * bound == bound * SCALE as int) by (nonlinear_arith);
        vstd::arithmetic::div_mod::lemma_div_multiples_vanish_fancy(
            bound - 1,
            SCALE as int - 1,
            SCALE as int,
        );
    }
}

} // verus!

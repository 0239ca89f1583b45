//! Core of a two-dimensional flocking simulation.
//!
//! A population of autonomous agents senses neighbours and enclosing walls
//! within a directional field of view, steers by composing wall-avoidance,
//! separation, alignment and cohesion effects, and advances in discrete
//! ticks.  All quantities are fixed-point integers: one canvas unit, one
//! radian and one unit of speed are each `SCALE` micro-units, and a tick
//! advances a whole number of reference frames, so every computation is
//! exact integer arithmetic and every step of the engine is verified
//! against its mathematical model.

pub mod fixed;
pub mod angle;
pub mod trig;
pub mod boid;
pub mod universe;

pub use angle::Angle;
pub use boid::Behaviors;
pub use boid::Body;
pub use boid::Boid;
pub use boid::Canvas;
pub use boid::Cone;
pub use boid::InitRandoms;
pub use boid::Point;
pub use boid::Rgb;
pub use boid::Side;
pub use boid::SimError;
pub use boid::Speed;
pub use fixed::HALF_TURN;
pub use fixed::QUARTER_TURN;
pub use fixed::SCALE;
pub use fixed::TAU;
pub use universe::Universe;
pub use universe::grid_split;

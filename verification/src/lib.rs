//! A verified core for a two-dimensional flocking simulation.
//!
//! A population of mobile agents is split into a few stationary leaders
//! and many followers. Followers exhibit the classic flocking forces
//! (separation, alignment, cohesion) among themselves, pursue their
//! leader or a gather target through a small state machine, and keep a
//! reference count on every agent that followers currently track.
//!
//! All quantities are fixed-point integers with three decimal digits
//! (see [`num::SCALE`]); rendering, input handling and scheduling are
//! left to the surrounding program.

pub mod flocking;
pub mod laws;
pub mod motion;
pub mod num;
pub mod pursuit;
pub mod settings;
pub mod sim;
pub mod store;
pub mod vec2;

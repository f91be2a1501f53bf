//! A 2D gravitational N-body simulation core.
//!
//! Circular bodies attract each other, move, collide and merge; one
//! designated "sun" never gains velocity from gravity.  The simulation can be
//! paused, a body can be selected by a click, and the future orbit of the
//! selected body can be predicted while paused.
//!
//! All physical scalars (positions, velocities, masses, radii, time steps)
//! are fixed-point numbers: an `i128` holding the value times `fixed::SCALE`
//! (three fractional decimal digits).  Every arithmetic step saturates at
//! `fixed::FP_MAX`, so the whole simulation is a total, deterministic
//! function of its inputs, and every public operation carries an exact
//! contract over the spec-level model in `physics`.

pub mod fixed;
pub mod body;
pub mod physics;
pub mod store;
pub mod rng;
pub mod sim;
pub mod laws;

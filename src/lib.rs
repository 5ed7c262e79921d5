//! A fixed-population simulation of circular bodies in a rectangular arena,
//! with gravity, drag, damped wall bounces and pairwise elastic collisions.
//!
//! All quantities are integers: lengths and velocities are in an arbitrary
//! fixed-point length unit chosen by the caller, and fractional parameters
//! are stored in parts per million. Coordinates, velocity components and
//! radii are bounded by `arith::COORD_LIMIT`; a velocity component that a
//! collision or gravity would push past that bound is held at it.
pub mod arith;
pub mod config;
pub mod ball;
pub mod collision;
pub mod ballset;

//! Fixed-point kinematics for a two-link planar (SCARA) arm.
//!
//! Lengths and coordinates are carried in milli-units (one unit is 1000),
//! angles in micro-radians, and trigonometric ratios scaled by one million.
//! Forward kinematics maps joint angles to link endpoints; inverse
//! kinematics maps a Cartesian target to joint angles, reporting whether
//! the target lies strictly inside the reachable disc.

pub mod math;
pub mod trig;
pub mod geometry;

pub use geometry::scara::{
    ClampReport, ConfigurationError, IkSolution, KinematicsError, Pose, Scara, ScaraState, Vec2,
};

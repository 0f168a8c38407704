//! Verified control core of a focus-following orbit camera, in fixed-point
//! arithmetic.

pub mod camera;
pub mod direction;
pub mod fixed;
pub mod screen;
pub mod smoothed;
pub mod vector;

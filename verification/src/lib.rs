//! Parameter/binding model for a riggable 2D puppet.
//!
//! A puppet is a tree of drawable nodes driven by named parameters. Each
//! parameter carries a sparse keyframe grid over one or two monotonic axes;
//! evaluating a parameter at a runtime value interpolates that grid and
//! writes the results into the node tree.
//!
//! All coordinates and channel values are fixed-point: a signed 32-bit count
//! of units at whatever scale the caller picks (the front end converts its
//! floating-point values at the boundary). Interpolation is exact integer
//! arithmetic, rounded toward the first endpoint.

pub mod math;
pub mod interp;
pub mod binding;
pub mod param;
pub mod nodes;
pub mod puppet;

//! A piecewise-linear schedule curve: an immutable, time-sorted set of
//! (clock time, value) keyframes, sampled by linear interpolation at an
//! arbitrary query time, with clamp-to-edge extrapolation outside the
//! keyframe range.

pub mod clock;
pub mod interp;
pub mod schedule;

//! Polyline smoothing by repeated corner-cutting subdivision.
//!
//! A coarse 2D or 3D polyline is smoothed by replacing every interior vertex
//! with two new vertices that cut its corner, one quarter of the way along
//! the incoming and outgoing edges, while the endpoints stay fixed. Repeating
//! the pass yields a dense polyline that approximates a smooth curve through
//! the original control points.
//!
//! Coordinates are exact fixed-point values: `i64` mantissas at a
//! caller-chosen power-of-two scale, with two spare low bits per requested
//! pass so that every cut is computed without rounding.

pub mod curve;
pub mod laws;
pub mod model;

pub use curve::fast_2d_step;
pub use curve::fast_3d_step;
pub use curve::fast_curve_2d;
pub use curve::fast_curve_3d;
pub use curve::CurveError;

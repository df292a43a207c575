//! Verified core of curve similarity measures: the pairwise distance matrix,
//! the discrete Fréchet distance and dynamic time warping over it, the shape
//! checks that come before them, and the corner vote of the quadrilateral
//! simplicity test.
use vstd::prelude::*;

pub mod dist_matrix;
pub mod dtw;
pub mod errors;
pub mod frechet;
pub mod quad;

pub use dist_matrix::{calc_dist_matrix, DistMetric};
pub use dtw::dtw_walk;
pub use errors::{check_shapes, CurveError};
pub use frechet::frechet_walk;
pub use quad::{is_simple_by_turns, Turn};

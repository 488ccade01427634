//! Two-dimensional rasters held in row-major order, their weighted overlay
//! ("map algebra"), and element-wise comparison of two rasters.

pub mod algebra;
pub mod compare;
pub mod raster;
pub mod exact;

pub use raster::{Raster, ShapeMismatch};

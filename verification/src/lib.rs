//! A small rasterization library: shape values parsed from a textual
//! description are scan-converted onto a bounded RGBA pixel buffer.

pub mod application;
pub mod bresenham;
pub mod buffer;
pub mod color;
pub mod errors;
pub mod factory;
pub mod fill;
pub mod midpoint;
pub mod point;
pub mod print_visitor;
pub mod raster;
pub mod shapes;
pub mod textfmt;
pub mod visitor;

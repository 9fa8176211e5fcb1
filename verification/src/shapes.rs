//! The shape model: one immutable value type per supported variant.

pub mod canvas;
pub mod circle;
pub mod diamond;
pub mod line;
pub mod polygon;
pub mod rectangle;
pub mod shape;
pub mod square;
pub mod triangle;

//! A small software rasterizer: a canvas of packed RGBA pixels, clipping of
//! primitive requests against the canvas, and rectangle, circle and triangle
//! drawing.

pub mod canvas;
pub mod color;
pub mod normal;
pub mod shapes;

pub use canvas::Canvas;
pub use color::{Color, RGBAColor};
pub use normal::{normalize_rect, normalize_triangle, NormalizedRect, NormalizedTriangle};
pub use shapes::point_in_triangle;

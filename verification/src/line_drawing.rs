//! A pixel grid addressed by signed coordinates, and the line rasterizer that draws
//! on it.

pub mod line;
pub mod matrix;
pub mod point;
pub mod rasterizer;

pub use self::line::{Line, ULine};
pub use self::matrix::FourQuadrantMatrix;
pub use self::point::{Point, UPoint};
pub use self::rasterizer::draw_line;

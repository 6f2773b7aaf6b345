//! The integer core of a tilt-compensated compass that shows its heading as a line
//! on a small pixel grid.
//!
//! - [`calibration`] estimates hard-iron offsets from a window of raw magnetometer
//!   samples and takes them off later samples.
//! - [`frame`] brings samples from the board's frame into the north-east-down frame.
//! - [`control`] holds the state of the compass loop and the decisions of one cycle.
//! - [`line_drawing`] is a grid addressed by signed coordinates around an origin
//!   cell, and a line rasterizer that clips to it.
//!
//! The trigonometry between the two halves (attitude, tilt compensation, heading) is
//! floating-point work and is left to the program around this library.

pub mod calibration;
pub mod control;
pub mod frame;
pub mod line_drawing;

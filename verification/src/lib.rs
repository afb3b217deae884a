//! A verified core for a 2D block game: a software rasterizer over a sparse
//! pixel map, a toroidal motion-and-wrap engine, and a shape store with a
//! line-oriented scene parser.
//!
//! The crate is backend-independent: an outer program owns the window, the
//! event loop and the renderer, feeds scene text and per-tick time deltas in,
//! and carries the produced pixel maps out to the screen.

pub mod fx;
pub mod shapes;
pub mod board;
pub mod motion;
pub mod raster;
pub mod parse;
pub mod ppm;

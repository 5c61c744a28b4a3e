//! Low-poly image pipeline: picks points along detected edges, filters them by
//! a minimum pairwise distance, appends the image corners, and shades the
//! triangles of a mesh over the surviving points.
//!
//! The pipeline is split into stages, each with a full functional contract:
//! sampling (`sampler`), colour resolution and rasterization (`render`), and
//! the text protocol of the external colour mapper (`mapper`).

pub mod canvas;
pub mod error;
pub mod geometry;
pub mod mapper;
pub mod opts;
pub mod render;
pub mod sampler;

pub use canvas::{Canvas, Color};
pub use error::LowPolyError;
pub use geometry::{Point, Triangle};
pub use opts::{Frac, Options, PixelUnit};

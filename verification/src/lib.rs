//! Forward-splat rendering of an image through a map of the plane.
//!
//! A source image is pushed, pixel by pixel, through a map of the plane onto a
//! fresh canvas of the same screen. This crate holds the discrete half of that
//! pipeline: packed colours and their fixed-point blend, the canvas, the pixel
//! side of the camera, and the renderer that turns one target per source pixel
//! into a canvas without pinholes.

pub mod camera;
pub mod color;
pub mod image;
pub mod ppm;
pub mod render;

pub use camera::Camera;
pub use color::Color;
pub use image::Image;
pub use render::{splat, transform};

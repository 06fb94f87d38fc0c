//! A software 3D rasterization pipeline over fixed-point arithmetic.
//!
//! The library turns a flat list of colored triangles, given in camera
//! space, into a row-major RGBA pixel buffer: an orientation engine builds
//! a rotation basis from yaw and pitch, a perspective projector maps each
//! vertex to a screen coordinate, and an edge-function rasterizer fills
//! each triangle with a per-pixel depth test.
//!
//! All scalar geometry values are fixed-point numbers: an `i64` holding
//! the real value times 65536. Every coordinate transform, the projection
//! and the rasterizer are verified against exact integer contracts over
//! that representation.

use vstd::prelude::*;

pub mod fixed;
pub mod frame;
pub mod parser;
pub mod trig;
pub mod raster;
pub mod vector;

verus! {

/// A flat color: one byte per channel, in R, G, B, A order.
#[derive(Clone, Copy, PartialEq, Eq, Structural, Debug)]
pub struct RGBA {
    pub r: u8,
    pub g: u8,
    pub b: u8,
    pub a: u8,
}

} // verus!

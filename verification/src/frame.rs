//! The boundary toward the presentation sink.
//!
//! The sink consumes a flat byte sequence of length `width * height *
//! 4`, row-major with the origin at the top left, channels in R, G, B,
//! A order: the byte offset of pixel `(x, y)` is `(y * width + x) * 4`.
//! `pixels_to_bytes` produces exactly that layout from a row-major
//! color buffer.

use vstd::prelude::*;
use crate::RGBA;

verus! {

/// How a presentation window is to be opened.
pub struct WindowSettings {
    pub title: String,
    pub width: u32,
    pub height: u32,
}

/// What the presentation sink needs from an image source: a fixed
/// resolution for the session and a snapshot of the current pixels,
/// row-major, of length `width() * height()`.
pub trait PixelProvider {
    /// A snapshot of the current frame.
    fn get_pixels(&self) -> Vec<RGBA>;

    /// The fixed width of the frame, in pixels.
    fn width(&self) -> u32;

    /// The fixed height of the frame, in pixels.
    fn height(&self) -> u32;
}

/// Flatten a row-major color buffer into the byte layout the
/// presentation surface accepts: four bytes per pixel, R, G, B, A.
#[verifier::loop_isolation(false)]
pub fn pixels_to_bytes(pixels: &Vec<RGBA>) -> (bytes: Vec<u8>)
    ensures
        bytes@.len() == pixels@.len() * 4,
        forall|i: int|
            0 <= i < pixels@.len() ==> {
                &&& bytes@[4 * i] == (#[trigger] pixels@[i]).r
                &&& bytes@[4 * i + 1] == pixels@[i].g
                &&& bytes@[4 * i + 2] == pixels@[i].b
                &&& bytes@[4 * i + 3] == pixels@[i].a
            },
{
    let mut bytes: Vec<u8> = Vec::new();
    let mut i: usize = 0;
    while i < pixels.len()
        invariant
            i <= pixels@.len(),
            bytes@.len() == i * 4,
            forall|k: int|
                0 <= k < i as int ==> {
                    &&& bytes@[4 * k] == (#[trigger] pixels@[k]).r
                    &&& bytes@[4 * k + 1] == pixels@[k].g
                    &&& bytes@[4 * k + 2] == pixels@[k].b
                    &&& bytes@[4 * k + 3] == pixels@[k].a
                },
        decreases pixels@.len() - i,
    {
        let p = pixels[i];
        bytes.push(p.r);
        bytes.push(p.g);
        bytes.push(p.b);
        bytes.push(p.a);
        i = i + 1;
    }
    bytes
}

/// Relies on rand::random: draws one byte from the thread's generator;
/// nothing can be promised of the value.
#[verifier::external_body]
fn random_byte() -> u8 {
    rand::random()
}

/// A color with random channels and full opacity.
pub fn random_color() -> (c: RGBA)
    ensures
        c.a == 255,
{
    RGBA { r: random_byte(), g: random_byte(), b: random_byte(), a: 255 }
}

} // verus!

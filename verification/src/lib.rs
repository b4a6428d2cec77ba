//! A small textual scene-description language for raster images, and the
//! pipeline that brings a description onto a pixel buffer: a grammar parser
//! that turns raw text into a syntactically checked raw document, a
//! validator that resolves every deferred numeric token into a typed
//! document, and a rasterizer that applies the ordered command list onto an
//! externally owned pixel buffer.

use vstd::prelude::*;

pub mod error;
pub mod parser;
pub mod read;
pub mod render;
pub mod transform;

verus! {

/// An RGBA color, 8 bits per channel.
#[derive(Clone, Copy, Debug, PartialEq, Eq, Structural)]
pub struct Pixel {
    pub r: u8,
    pub g: u8,
    pub b: u8,
    pub a: u8,
}

impl Pixel {
    /// Channel order follows the pixel buffer collaborator: red, green,
    /// blue, alpha.
    pub fn new(r: u8, g: u8, b: u8, a: u8) -> (p: Pixel)
        ensures
            p == (Pixel { r, g, b, a }),
    {
        Pixel { r, g, b, a }
    }
}

/// A single drawing operation, applied in document order.
#[derive(Clone, Copy, Debug, PartialEq, Eq)]
pub enum Command {
    DrawPixel {
        position: (u32, u32),
        color: Pixel,
    },
    DrawRect {
        corner_position_1: (u32, u32),
        corner_position_2: (u32, u32),
        color: Pixel,
    },
}

/// How the canvas is filled: a background color plus an ordered list of
/// sparse drawing commands.
#[derive(Debug)]
pub enum ImageFill {
    Sparse((Vec<Command>, Pixel)),
}

/// A fully validated image description: it exists only as the result of
/// successful validation, so every numeric field is concrete.
#[derive(Debug)]
pub struct CustomImage {
    pub width: u32,
    pub height: u32,
    pub data: ImageFill,
}

/// The mathematical content of a `CustomImage`.
pub struct SpecImage {
    pub width: u32,
    pub height: u32,
    pub background: Pixel,
    pub commands: Seq<Command>,
}

impl View for CustomImage {
    type V = SpecImage;

    open spec fn view(&self) -> SpecImage {
        match self.data {
            ImageFill::Sparse((cmds, bg)) => SpecImage {
                width: self.width,
                height: self.height,
                background: bg,
                commands: cmds@,
            },
        }
    }
}

} // verus!

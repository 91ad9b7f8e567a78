//! A monochrome (black/white) bistable display abstraction: a packed 1-bit-per-pixel
//! framebuffer, byte-level blitting at arbitrary horizontal offsets, and the
//! full/partial refresh cadence of an SSD1680 e-paper panel.
use vstd::prelude::*;

pub mod address;
pub mod blit;
pub mod display;
pub mod refresh;

verus! {

/// How background pixels of a drawn source are treated.
#[derive(Clone, Copy, PartialEq, Eq, Debug, Structural)]
pub enum TransparencySetting {
    /// Every source pixel overwrites the destination.
    Opaque,
    /// Black source pixels leave the destination as it is.
    BlackTransparent,
    /// White source pixels leave the destination as it is.
    WhiteTransparent,
}

/// The error type of a display.
pub trait ErrorType {
    type Error;
}

/// A black and white display: white is `true`, black is `false`, and one
/// framebuffer byte holds eight pixels along the x axis.
pub trait BWDisplay: ErrorType {
    fn set_pixel(&mut self, x: u16, y: u16, color: bool) -> Result<(), Self::Error>;

    fn fill(&mut self, color: bool) -> Result<(), Self::Error>;

    fn set_buffer(&mut self, buffer: &[u8]) -> Result<(), Self::Error>;

    fn draw_buffer(&mut self, buffer: &[u8], x: u16, y: u16, w: u16, h: u16) -> Result<
        (),
        Self::Error,
    >;

    fn draw_buffer_with_transparency(
        &mut self,
        buffer: &[u8],
        x: u16,
        y: u16,
        w: u16,
        h: u16,
        transparency: TransparencySetting,
    ) -> Result<(), Self::Error>;

    fn refresh(&mut self, force_full: bool) -> Result<(), Self::Error>;
}

} // verus!
